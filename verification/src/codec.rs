//! The persistence codec: rendering a registry to a structured text document
//! and parsing it back.
//!
//! The document is an object tree whose shape mirrors the registry exactly:
//! `{"game":...,"version":...,"tables":[{"name":...,"definitions":[
//! {"version":...,"fields":[{"field_name":...,"field_type":...,
//! "field_is_key":...,"field_is_reference":...,"field_description":...}]}]}]}`.
//! String values escape `"` and `\` with a backslash; the field type is its
//! variant tag.  Parsing accepts exactly what rendering emits, and the round
//! trip is proved: parsing a rendered registry gives the registry back.

use crate::schema::{
    DefinitionView, Field, FieldType, FieldView, Schema, SchemaView, TableDefinition,
    TableDefinitions, TableSetView,
};
use crate::text::{push_char, push_str_chars, str_eq};
use vstd::prelude::*;
use vstd::string::StrSliceExecFns;

verus! {

broadcast use vstd::string::group_string_axioms;

/// Parsing failed: the document is not one that rendering produces.
#[derive(Clone, Debug, PartialEq)]
pub enum DecodeError {
    Malformed,
}

// ---------------------------------------------------------------------------
// Sequence helpers
// ---------------------------------------------------------------------------

/// Splitting a concatenation at the length of its left part.
proof fn lemma_concat_parts(a: Seq<char>, b: Seq<char>)
    ensures
        (a + b).len() == a.len() + b.len(),
        (a + b).take(a.len() as int) == a,
        (a + b).skip(a.len() as int) == b,
{
    assert((a + b).take(a.len() as int) =~= a);
    assert((a + b).skip(a.len() as int) =~= b);
}

/// A skip of a skip is one skip.
proof fn lemma_skip_skip(s: Seq<char>, a: int, b: int)
    requires
        0 <= a,
        0 <= b,
        a + b <= s.len(),
    ensures
        s.skip(a).skip(b) == s.skip(a + b),
{
    assert(s.skip(a).skip(b) =~= s.skip(a + b));
}

// ---------------------------------------------------------------------------
// Literals
// ---------------------------------------------------------------------------

/// Consumes an exact literal prefix.
pub open spec fn p_lit(s: Seq<char>, lit: Seq<char>) -> Option<Seq<char>> {
    if lit.len() <= s.len() && s.take(lit.len() as int) == lit {
        Some(s.skip(lit.len() as int))
    } else {
        None
    }
}

/// A literal prefix parses to the rest of the input.
proof fn lemma_rt_lit(lit: Seq<char>, rest: Seq<char>)
    ensures
        p_lit(lit + rest, lit) == Some(rest),
{
    lemma_concat_parts(lit, rest);
}

/// A literal fails on input that starts with a different character.
proof fn lemma_lit_fail(s: Seq<char>, lit: Seq<char>)
    requires
        s.len() >= 1,
        lit.len() >= 1,
        s[0] != lit[0],
    ensures
        p_lit(s, lit) is None,
{
    if lit.len() <= s.len() {
        assert(s.take(lit.len() as int)[0] == s[0]);
    }
}

/// First character and length of every literal chunk of the document
/// grammar, so the grammar's branch points are provably unambiguous.
proof fn lemma_grammar_literals()
    ensures
        "{\"game\":\""@.len() >= 1 && "{\"game\":\""@[0] == '{',
        "\",\"version\":"@.len() >= 1 && "\",\"version\":"@[0] == '"',
        ",\"tables\":["@.len() >= 1 && ",\"tables\":["@[0] == ',',
        "{\"name\":\""@.len() >= 1 && "{\"name\":\""@[0] == '{',
        "\",\"definitions\":["@.len() >= 1 && "\",\"definitions\":["@[0] == '"',
        "{\"version\":"@.len() >= 1 && "{\"version\":"@[0] == '{',
        ",\"fields\":["@.len() >= 1 && ",\"fields\":["@[0] == ',',
        "{\"field_name\":\""@.len() >= 1 && "{\"field_name\":\""@[0] == '{',
        "\",\"field_type\":\""@.len() >= 1 && "\",\"field_type\":\""@[0] == '"',
        "\",\"field_is_key\":"@.len() >= 1 && "\",\"field_is_key\":"@[0] == '"',
        ",\"field_is_reference\":"@.len() >= 1 && ",\"field_is_reference\":"@[0] == ',',
        ",\"field_description\":\""@.len() >= 1 && ",\"field_description\":\""@[0] == ',',
        "\"}"@.len() >= 1 && "\"}"@[0] == '"',
        "true"@.len() == 4 && "true"@[0] == 't',
        "false"@.len() == 5 && "false"@[0] == 'f',
        "null"@.len() == 4 && "null"@[0] == 'n',
        "[\""@.len() == 2 && "[\""@[0] == '[',
        "\",\""@.len() == 3 && "\",\""@[0] == '"',
        "\"]"@.len() == 2 && "\"]"@[0] == '"',
        "]"@ =~= seq![']'],
        "}"@.len() == 1 && "}"@[0] == '}',
        ","@ =~= seq![','],
{
    reveal_strlit("{\"game\":\"");
    reveal_strlit("\",\"version\":");
    reveal_strlit(",\"tables\":[");
    reveal_strlit("{\"name\":\"");
    reveal_strlit("\",\"definitions\":[");
    reveal_strlit("{\"version\":");
    reveal_strlit(",\"fields\":[");
    reveal_strlit("{\"field_name\":\"");
    reveal_strlit("\",\"field_type\":\"");
    reveal_strlit("\",\"field_is_key\":");
    reveal_strlit(",\"field_is_reference\":");
    reveal_strlit(",\"field_description\":\"");
    reveal_strlit("\"}");
    reveal_strlit("true");
    reveal_strlit("false");
    reveal_strlit("null");
    reveal_strlit("[\"");
    reveal_strlit("\",\"");
    reveal_strlit("\"]");
    reveal_strlit("]");
    reveal_strlit("}");
    reveal_strlit(",");
}

// ---------------------------------------------------------------------------
// Strings
// ---------------------------------------------------------------------------

/// Escapes `"` and `\` with a backslash.
pub open spec fn spec_escape(s: Seq<char>) -> Seq<char>
    decreases s.len(),
{
    if s.len() == 0 {
        Seq::<char>::empty()
    } else {
        let head = if s[0] == '"' || s[0] == '\\' {
            seq!['\\', s[0]]
        } else {
            seq![s[0]]
        };
        head + spec_escape(s.drop_first())
    }
}

/// Consumes an escaped string body up to, but not including, the first
/// unescaped double quote, and returns the unescaped content.
pub open spec fn p_string(s: Seq<char>) -> Option<(Seq<char>, Seq<char>)>
    decreases s.len(),
{
    if s.len() == 0 {
        None
    } else if s[0] == '"' {
        Some((Seq::<char>::empty(), s))
    } else if s[0] == '\\' {
        if s.len() >= 2 {
            match p_string(s.skip(2)) {
                Some(p) => Some((seq![s[1]] + p.0, p.1)),
                None => None,
            }
        } else {
            None
        }
    } else {
        match p_string(s.drop_first()) {
            Some(p) => Some((seq![s[0]] + p.0, p.1)),
            None => None,
        }
    }
}

/// Escaping prepends per-character escapes one at a time.
proof fn lemma_escape_snoc(s: Seq<char>, c: char)
    ensures
        spec_escape(s.push(c)) == spec_escape(s) + (if c == '"' || c == '\\' {
            seq!['\\', c]
        } else {
            seq![c]
        }),
    decreases s.len(),
{
    let e = if c == '"' || c == '\\' {
        seq!['\\', c]
    } else {
        seq![c]
    };
    let p = s.push(c);
    if s.len() == 0 {
        assert(p.len() == 1 && p[0] == c);
        assert(p.drop_first() =~= Seq::<char>::empty());
        assert(spec_escape(p.drop_first()) == Seq::<char>::empty());
        assert(spec_escape(p) == e + Seq::<char>::empty());
        assert(e + Seq::<char>::empty() =~= Seq::<char>::empty() + e);
    } else {
        assert(p.len() == s.len() + 1 && p[0] == s[0]);
        assert(p.drop_first() =~= s.drop_first().push(c));
        lemma_escape_snoc(s.drop_first(), c);
        let h = if s[0] == '"' || s[0] == '\\' {
            seq!['\\', s[0]]
        } else {
            seq![s[0]]
        };
        assert(spec_escape(p) == h + (spec_escape(s.drop_first()) + e));
        assert(spec_escape(s) == h + spec_escape(s.drop_first()));
        assert(h + (spec_escape(s.drop_first()) + e) =~= (h + spec_escape(s.drop_first())) + e);
    }
}

/// An escaped string followed by a double quote parses back to the string.
proof fn lemma_rt_string(t: Seq<char>, rest: Seq<char>)
    requires
        rest.len() >= 1,
        rest[0] == '"',
    ensures
        p_string(spec_escape(t) + rest) == Some((t, rest)),
    decreases t.len(),
{
    let s = spec_escape(t) + rest;
    if t.len() == 0 {
        assert(s =~= rest);
    } else {
        let t1 = t.drop_first();
        lemma_rt_string(t1, rest);
        if t[0] == '"' || t[0] == '\\' {
            assert(s[0] == '\\');
            assert(s[1] == t[0]);
            assert(s.len() >= 2);
            assert(s.skip(2) =~= spec_escape(t1) + rest);
            assert(seq![t[0]] + t1 =~= t);
        } else {
            assert(s[0] == t[0]);
            assert(s.drop_first() =~= spec_escape(t1) + rest);
            assert(seq![t[0]] + t1 =~= t);
        }
    }
}

/// No character of the sequence needs escaping.
pub open spec fn no_specials(s: Seq<char>) -> bool {
    forall|i: int| 0 <= i < s.len() ==> s[i] != '"' && s[i] != '\\'
}

/// Escaping a sequence without special characters changes nothing.
proof fn lemma_escape_id(s: Seq<char>)
    requires
        no_specials(s),
    ensures
        spec_escape(s) == s,
    decreases s.len(),
{
    if s.len() == 0 {
        assert(spec_escape(s) =~= s);
    } else {
        assert(forall|i: int|
            0 <= i < s.drop_first().len() ==> s.drop_first()[i] == s[i + 1]);
        lemma_escape_id(s.drop_first());
        assert(spec_escape(s) =~= s);
    }
}

// ---------------------------------------------------------------------------
// Numbers
// ---------------------------------------------------------------------------

/// The ten decimal digit characters.
pub open spec fn is_digit(c: char) -> bool {
    c == '0' || c == '1' || c == '2' || c == '3' || c == '4' || c == '5' || c == '6' || c == '7'
        || c == '8' || c == '9'
}

/// Value of one digit character.
pub open spec fn digit_val(c: char) -> nat {
    if c == '0' {
        0
    } else if c == '1' {
        1
    } else if c == '2' {
        2
    } else if c == '3' {
        3
    } else if c == '4' {
        4
    } else if c == '5' {
        5
    } else if c == '6' {
        6
    } else if c == '7' {
        7
    } else if c == '8' {
        8
    } else {
        9
    }
}

/// Digit character of one value below ten.
pub open spec fn digit_char(d: nat) -> char {
    if d == 0 {
        '0'
    } else if d == 1 {
        '1'
    } else if d == 2 {
        '2'
    } else if d == 3 {
        '3'
    } else if d == 4 {
        '4'
    } else if d == 5 {
        '5'
    } else if d == 6 {
        '6'
    } else if d == 7 {
        '7'
    } else if d == 8 {
        '8'
    } else {
        '9'
    }
}

/// Decimal rendering, most significant digit first.
pub open spec fn spec_render_u32(n: nat) -> Seq<char>
    decreases n,
{
    if n < 10 {
        seq![digit_char(n)]
    } else {
        spec_render_u32(n / 10).push(digit_char(n % 10))
    }
}

/// The longest digit prefix and what follows it.
pub open spec fn p_digits(s: Seq<char>) -> (Seq<char>, Seq<char>)
    decreases s.len(),
{
    if s.len() > 0 && is_digit(s[0]) {
        let p = p_digits(s.drop_first());
        (seq![s[0]] + p.0, p.1)
    } else {
        (Seq::<char>::empty(), s)
    }
}

/// Value of a digit sequence, least significant digit last.
pub open spec fn digits_val(ds: Seq<char>) -> nat
    decreases ds.len(),
{
    if ds.len() == 0 {
        0
    } else {
        digits_val(ds.drop_last()) * 10 + digit_val(ds.last())
    }
}

/// Consumes a decimal number that fits in 32 bits.
pub open spec fn p_u32(s: Seq<char>) -> Option<(u32, Seq<char>)> {
    let p = p_digits(s);
    if p.0.len() == 0 {
        None
    } else if digits_val(p.0) <= u32::MAX as nat {
        Some((digits_val(p.0) as u32, p.1))
    } else {
        None
    }
}

/// A rendered number consists of digits and has its value.
proof fn lemma_render_u32_digits(n: nat)
    ensures
        spec_render_u32(n).len() >= 1,
        forall|i: int| 0 <= i < spec_render_u32(n).len() ==> is_digit(#[trigger] spec_render_u32(n)[i]),
        digits_val(spec_render_u32(n)) == n,
    decreases n,
{
    if n < 10 {
        let r = seq![digit_char(n)];
        assert(spec_render_u32(n) == r);
        assert(r.len() == 1 && r.last() == digit_char(n));
        assert(r.drop_last() =~= Seq::<char>::empty());
        assert(digits_val(r.drop_last()) == 0);
        assert(digits_val(r) == digit_val(digit_char(n)));
        assert(digit_val(digit_char(n)) == n);
        assert(is_digit(digit_char(n)));
    } else {
        lemma_render_u32_digits(n / 10);
        let q = spec_render_u32(n / 10);
        let r = q.push(digit_char(n % 10));
        assert(spec_render_u32(n) == r);
        assert(r.drop_last() =~= q);
        assert(r.last() == digit_char(n % 10));
        assert(digits_val(r) == digits_val(q) * 10 + digit_val(digit_char(n % 10)));
        assert(0 <= n % 10 < 10);
        assert(digit_val(digit_char(n % 10)) == n % 10);
        vstd::arithmetic::div_mod::lemma_fundamental_div_mod(n as int, 10);
        assert(digits_val(r) == n);
        assert forall|i: int| 0 <= i < r.len() implies is_digit(#[trigger] r[i]) by {
            if i < q.len() {
                assert(r[i] == q[i]);
            } else {
                assert(r[i] == digit_char(n % 10));
                assert(is_digit(digit_char(n % 10)));
            }
        }
    }
}

/// The digit scanner takes exactly an all-digit prefix.
proof fn lemma_p_digits_concat(ds: Seq<char>, rest: Seq<char>)
    requires
        forall|i: int| 0 <= i < ds.len() ==> is_digit(#[trigger] ds[i]),
        rest.len() == 0 || !is_digit(rest[0]),
    ensures
        p_digits(ds + rest) == (ds, rest),
    decreases ds.len(),
{
    let s = ds + rest;
    if ds.len() == 0 {
        assert(s =~= rest);
    } else {
        assert(s[0] == ds[0]);
        assert(s.drop_first() =~= ds.drop_first() + rest);
        assert(forall|i: int|
            0 <= i < ds.drop_first().len() ==> ds.drop_first()[i] == ds[i + 1]);
        lemma_p_digits_concat(ds.drop_first(), rest);
        assert(seq![ds[0]] + ds.drop_first() =~= ds);
    }
}

/// A rendered 32-bit number parses back to its value.
proof fn lemma_rt_u32(n: u32, rest: Seq<char>)
    requires
        rest.len() == 0 || !is_digit(rest[0]),
    ensures
        p_u32(spec_render_u32(n as nat) + rest) == Some((n, rest)),
{
    lemma_render_u32_digits(n as nat);
    lemma_p_digits_concat(spec_render_u32(n as nat), rest);
}

// ---------------------------------------------------------------------------
// Field type tags
// ---------------------------------------------------------------------------

/// The variant tag a field type serializes as.
pub open spec fn spec_type_tag(t: FieldType) -> Seq<char> {
    match t {
        FieldType::Boolean => "Boolean"@,
        FieldType::Float => "Float"@,
        FieldType::Integer => "Integer"@,
        FieldType::StringU8 => "StringU8"@,
        FieldType::StringU16 => "StringU16"@,
        FieldType::OptionalStringU8 => "OptionalStringU8"@,
        FieldType::OptionalStringU16 => "OptionalStringU16"@,
    }
}

/// The field type a variant tag parses to.
pub open spec fn spec_tag_type(s: Seq<char>) -> Option<FieldType> {
    if s == "Boolean"@ {
        Some(FieldType::Boolean)
    } else if s == "Float"@ {
        Some(FieldType::Float)
    } else if s == "Integer"@ {
        Some(FieldType::Integer)
    } else if s == "StringU8"@ {
        Some(FieldType::StringU8)
    } else if s == "StringU16"@ {
        Some(FieldType::StringU16)
    } else if s == "OptionalStringU8"@ {
        Some(FieldType::OptionalStringU8)
    } else if s == "OptionalStringU16"@ {
        Some(FieldType::OptionalStringU16)
    } else {
        None
    }
}

/// Length, first character and absence of special characters for each
/// variant tag, so the seven tags are provably distinct.
proof fn lemma_tag_facts()
    ensures
        "Boolean"@.len() == 7 && "Boolean"@[0] == 'B' && no_specials("Boolean"@),
        "Float"@.len() == 5 && "Float"@[0] == 'F' && no_specials("Float"@),
        "Integer"@.len() == 7 && "Integer"@[0] == 'I' && no_specials("Integer"@),
        "StringU8"@.len() == 8 && "StringU8"@[0] == 'S' && no_specials("StringU8"@),
        "StringU16"@.len() == 9 && "StringU16"@[0] == 'S' && no_specials("StringU16"@),
        "OptionalStringU8"@.len() == 16 && "OptionalStringU8"@[0] == 'O' && no_specials(
            "OptionalStringU8"@,
        ),
        "OptionalStringU16"@.len() == 17 && "OptionalStringU16"@[0] == 'O' && no_specials(
            "OptionalStringU16"@,
        ),
{
    reveal_strlit("Boolean");
    reveal_strlit("Float");
    reveal_strlit("Integer");
    reveal_strlit("StringU8");
    reveal_strlit("StringU16");
    reveal_strlit("OptionalStringU8");
    reveal_strlit("OptionalStringU16");
}

/// Each variant's tag parses back to the variant.
proof fn lemma_tag_round(t: FieldType)
    ensures
        spec_tag_type(spec_type_tag(t)) == Some(t),
{
    lemma_tag_facts();
}

// ---------------------------------------------------------------------------
// Booleans and references
// ---------------------------------------------------------------------------

/// Rendering of the key flag.
pub open spec fn spec_render_bool(b: bool) -> Seq<char> {
    if b {
        "true"@
    } else {
        "false"@
    }
}

/// Consumes `true` or `false`.
pub open spec fn p_bool(s: Seq<char>) -> Option<(bool, Seq<char>)> {
    match p_lit(s, "true"@) {
        Some(r) => Some((true, r)),
        None => match p_lit(s, "false"@) {
            Some(r) => Some((false, r)),
            None => None,
        },
    }
}

proof fn lemma_rt_bool(b: bool, rest: Seq<char>)
    ensures
        p_bool(spec_render_bool(b) + rest) == Some((b, rest)),
{
    lemma_grammar_literals();
    lemma_rt_lit(spec_render_bool(b), rest);
    if !b {
        lemma_lit_fail("false"@ + rest, "true"@);
    }
}

/// Rendering of the optional (table, column) reference.
pub open spec fn spec_render_ref(r: Option<(Seq<char>, Seq<char>)>) -> Seq<char> {
    match r {
        None => "null"@,
        Some(p) => "[\""@ + spec_escape(p.0) + "\",\""@ + spec_escape(p.1) + "\"]"@,
    }
}

/// Consumes `null` or a two-element string array.
pub open spec fn p_ref(s: Seq<char>) -> Option<(Option<(Seq<char>, Seq<char>)>, Seq<char>)> {
    match p_lit(s, "null"@) {
        Some(r) => Some((None, r)),
        None => match p_lit(s, "[\""@) {
            None => None,
            Some(s1) => match p_string(s1) {
                None => None,
                Some((t, s2)) => match p_lit(s2, "\",\""@) {
                    None => None,
                    Some(s3) => match p_string(s3) {
                        None => None,
                        Some((c, s4)) => match p_lit(s4, "\"]"@) {
                            None => None,
                            Some(s5) => Some((Some((t, c)), s5)),
                        },
                    },
                },
            },
        },
    }
}

proof fn lemma_rt_ref(r: Option<(Seq<char>, Seq<char>)>, rest: Seq<char>)
    ensures
        p_ref(spec_render_ref(r) + rest) == Some((r, rest)),
{
    lemma_grammar_literals();
    match r {
        None => {
            lemma_rt_lit("null"@, rest);
        },
        Some(p) => {
            let t2 = "\"]"@ + rest;
            let t1 = spec_escape(p.1) + t2;
            let t0 = "\",\""@ + t1;
            let tn = spec_escape(p.0) + t0;
            let s = "[\""@ + tn;
            assert(spec_render_ref(r) + rest =~= s);
            assert(s.len() >= 1 && s[0] == '[');
            lemma_lit_fail(s, "null"@);
            lemma_rt_lit("[\""@, tn);
            lemma_rt_string(p.0, t0);
            lemma_rt_lit("\",\""@, t1);
            lemma_rt_string(p.1, t2);
            lemma_rt_lit("\"]"@, rest);
        },
    }
}

// ---------------------------------------------------------------------------
// Fields
// ---------------------------------------------------------------------------

/// Rendering of one field object.
pub open spec fn spec_render_field(f: FieldView) -> Seq<char> {
    "{\"field_name\":\""@ + spec_escape(f.name) + "\",\"field_type\":\""@ + spec_type_tag(f.ty)
        + "\",\"field_is_key\":"@ + spec_render_bool(f.is_key) + ",\"field_is_reference\":"@
        + spec_render_ref(f.reference) + ",\"field_description\":\""@ + spec_escape(f.description)
        + "\"}"@
}

/// Consumes one field object.
#[verifier::opaque]
pub open spec fn p_field(s: Seq<char>) -> Option<(FieldView, Seq<char>)> {
    match p_lit(s, "{\"field_name\":\""@) {
        None => None,
        Some(s1) => match p_string(s1) {
            None => None,
            Some((name, s2)) => match p_lit(s2, "\",\"field_type\":\""@) {
                None => None,
                Some(s3) => match p_string(s3) {
                    None => None,
                    Some((tag, s4)) => match spec_tag_type(tag) {
                        None => None,
                        Some(ty) => match p_lit(s4, "\",\"field_is_key\":"@) {
                            None => None,
                            Some(s5) => match p_bool(s5) {
                                None => None,
                                Some((key, s6)) => match p_lit(s6, ",\"field_is_reference\":"@) {
                                    None => None,
                                    Some(s7) => match p_ref(s7) {
                                        None => None,
                                        Some((re, s8)) => match p_lit(
                                            s8,
                                            ",\"field_description\":\""@,
                                        ) {
                                            None => None,
                                            Some(s9) => match p_string(s9) {
                                                None => None,
                                                Some((desc, s10)) => match p_lit(s10, "\"}"@) {
                                                    None => None,
                                                    Some(s11) => Some(
                                                        (
                                                            FieldView {
                                                                name,
                                                                ty,
                                                                is_key: key,
                                                                reference: re,
                                                                description: desc,
                                                            },
                                                            s11,
                                                        ),
                                                    ),
                                                },
                                            },
                                        },
                                    },
                                },
                            },
                        },
                    },
                },
            },
        },
    }
}

#[verifier::rlimit(80)]
proof fn lemma_rt_field(f: FieldView, rest: Seq<char>)
    ensures
        p_field(spec_render_field(f) + rest) == Some((f, rest)),
        spec_render_field(f).len() >= 1,
        spec_render_field(f)[0] == '{',
{
    reveal(p_field);
    lemma_grammar_literals();
    lemma_tag_facts();
    let t9 = "\"}"@ + rest;
    let t8 = spec_escape(f.description) + t9;
    let t7 = ",\"field_description\":\""@ + t8;
    let t6 = spec_render_ref(f.reference) + t7;
    let t5 = ",\"field_is_reference\":"@ + t6;
    let t4 = spec_render_bool(f.is_key) + t5;
    let t3 = "\",\"field_is_key\":"@ + t4;
    let t2 = spec_type_tag(f.ty) + t3;
    let t1 = "\",\"field_type\":\""@ + t2;
    let t0 = spec_escape(f.name) + t1;
    let s = "{\"field_name\":\""@ + t0;
    assert(spec_render_field(f) + rest =~= s);
    lemma_rt_lit("{\"field_name\":\""@, t0);
    lemma_rt_string(f.name, t1);
    lemma_rt_lit("\",\"field_type\":\""@, t2);
    lemma_escape_id(spec_type_tag(f.ty));
    assert(t2 == spec_escape(spec_type_tag(f.ty)) + t3);
    lemma_rt_string(spec_type_tag(f.ty), t3);
    lemma_tag_round(f.ty);
    lemma_rt_lit("\",\"field_is_key\":"@, t4);
    lemma_rt_bool(f.is_key, t5);
    lemma_rt_lit(",\"field_is_reference\":"@, t6);
    lemma_rt_ref(f.reference, t7);
    lemma_rt_lit(",\"field_description\":\""@, t8);
    lemma_rt_string(f.description, t9);
    lemma_rt_lit("\"}"@, rest);
    assert(s[0] == '{');
}

// ---------------------------------------------------------------------------
// Lists
// ---------------------------------------------------------------------------

/// Rendering of a non-empty field list, comma separated.
pub open spec fn spec_render_fields_ne(fs: Seq<FieldView>) -> Seq<char>
    decreases fs.len(),
{
    if fs.len() <= 1 {
        spec_render_field(fs[0])
    } else {
        spec_render_fields_ne(fs.drop_last()) + (","@ + spec_render_field(fs.last()))
    }
}

/// Rendering of a field list without its brackets.
pub open spec fn spec_render_fields(fs: Seq<FieldView>) -> Seq<char> {
    if fs.len() == 0 {
        Seq::<char>::empty()
    } else {
        spec_render_fields_ne(fs)
    }
}

/// Consumes field objects separated by commas until a closing bracket,
/// which is consumed too; the list has at least one element.
pub open spec fn p_fields_more(s: Seq<char>) -> Option<(Seq<FieldView>, Seq<char>)>
    decreases s.len(),
{
    match p_field(s) {
        None => None,
        Some((f, r)) => if r.len() < s.len() {
            if r.len() > 0 && r[0] == ',' {
                match p_fields_more(r.drop_first()) {
                    Some(p) => Some((seq![f] + p.0, p.1)),
                    None => None,
                }
            } else if r.len() > 0 && r[0] == ']' {
                Some((seq![f], r.drop_first()))
            } else {
                None
            }
        } else {
            None
        },
    }
}

/// Consumes a possibly empty field list and its closing bracket.
pub open spec fn p_fields(s: Seq<char>) -> Option<(Seq<FieldView>, Seq<char>)> {
    if s.len() > 0 && s[0] == ']' {
        Some((Seq::<FieldView>::empty(), s.skip(1)))
    } else {
        p_fields_more(s)
    }
}

/// A non-empty rendered list decomposes at its first element.
proof fn lemma_render_fields_head(fs: Seq<FieldView>)
    requires
        fs.len() >= 2,
    ensures
        spec_render_fields_ne(fs) == spec_render_field(fs[0]) + (","@ + spec_render_fields_ne(
            fs.drop_first(),
        )),
    decreases fs.len(),
{
    if fs.len() == 2 {
        assert(fs.drop_last()[0] == fs[0]);
        assert(fs.drop_first()[0] == fs[1]);
        assert(spec_render_fields_ne(fs.drop_last()) == spec_render_field(fs[0]));
        assert(spec_render_fields_ne(fs.drop_first()) == spec_render_field(fs[1]));
        assert(fs.last() == fs[1]);
    } else {
        lemma_render_fields_head(fs.drop_last());
        assert(fs.drop_last().drop_first() =~= fs.drop_first().drop_last());
        assert(fs.drop_last()[0] == fs[0]);
        assert(fs.drop_first().last() == fs.last());
        assert(fs.drop_first().len() >= 2);
        let a = spec_render_field(fs[0]);
        let b = spec_render_fields_ne(fs.drop_first().drop_last());
        let d = spec_render_field(fs.last());
        assert(spec_render_fields_ne(fs.drop_last()) == a + (","@ + b));
        assert(spec_render_fields_ne(fs) == (a + (","@ + b)) + (","@ + d));
        assert(spec_render_fields_ne(fs.drop_first()) == b + (","@ + d));
        assert((a + (","@ + b)) + (","@ + d) =~= a + (","@ + (b + (","@ + d))));
    }
}

#[verifier::rlimit(80)]
#[verifier::spinoff_prover]
proof fn lemma_rt_fields_more(fs: Seq<FieldView>, rest: Seq<char>)
    requires
        fs.len() >= 1,
    ensures
        p_fields_more(spec_render_fields_ne(fs) + (seq![']'] + rest)) == Some((fs, rest)),
    decreases fs.len(),
{
    lemma_grammar_literals();
    if fs.len() == 1 {
        let s = spec_render_field(fs[0]) + (seq![']'] + rest);
        assert(spec_render_fields_ne(fs) + (seq![']'] + rest) =~= s);
        lemma_rt_field(fs[0], seq![']'] + rest);
        let r = seq![']'] + rest;
        assert(s.len() == spec_render_field(fs[0]).len() + r.len());
        assert(r.len() < s.len());
        assert(r[0] == ']');
        assert(r.drop_first() =~= rest);
        assert(seq![fs[0]] =~= fs);
    } else {
        lemma_render_fields_head(fs);
        let u = spec_render_fields_ne(fs.drop_first()) + (seq![']'] + rest);
        let s = spec_render_field(fs[0]) + (seq![','] + u);
        assert(spec_render_fields_ne(fs) + (seq![']'] + rest) =~= s) by {
            assert(","@ =~= seq![',']);
        }
        lemma_rt_field(fs[0], seq![','] + u);
        let r = seq![','] + u;
        assert(s.len() == spec_render_field(fs[0]).len() + r.len());
        assert(r.len() < s.len());
        assert(r[0] == ',');
        assert(r.drop_first() =~= u);
        lemma_rt_fields_more(fs.drop_first(), rest);
        assert(seq![fs[0]] + fs.drop_first() =~= fs);
    }
}

proof fn lemma_rt_fields(fs: Seq<FieldView>, rest: Seq<char>)
    ensures
        p_fields(spec_render_fields(fs) + (seq![']'] + rest)) == Some((fs, rest)),
{
    lemma_grammar_literals();
    if fs.len() == 0 {
        let s = spec_render_fields(fs) + (seq![']'] + rest);
        assert(s =~= seq![']'] + rest);
        assert(s[0] == ']');
        assert(s.skip(1) =~= rest);
        assert(fs =~= Seq::<FieldView>::empty());
    } else {
        let s = spec_render_fields(fs) + (seq![']'] + rest);
        lemma_rt_field(fs[0], rest);
        assert(s[0] == '{') by {
            if fs.len() >= 2 {
                lemma_render_fields_head(fs);
            }
            assert(s[0] == spec_render_field(fs[0])[0]);
        }
        lemma_rt_fields_more(fs, rest);
    }
}

// ---------------------------------------------------------------------------
// Definitions
// ---------------------------------------------------------------------------

/// Rendering of one definition object.
pub open spec fn spec_render_def(d: DefinitionView) -> Seq<char> {
    "{\"version\":"@ + spec_render_u32(d.version as nat) + ",\"fields\":["@ + spec_render_fields(
        d.fields,
    ) + "]"@ + "}"@
}

/// Consumes one definition object.
#[verifier::opaque]
pub open spec fn p_def(s: Seq<char>) -> Option<(DefinitionView, Seq<char>)> {
    match p_lit(s, "{\"version\":"@) {
        None => None,
        Some(s1) => match p_u32(s1) {
            None => None,
            Some((v, s2)) => match p_lit(s2, ",\"fields\":["@) {
                None => None,
                Some(s3) => match p_fields(s3) {
                    None => None,
                    Some((fs, s4)) => match p_lit(s4, "}"@) {
                        None => None,
                        Some(s5) => Some((DefinitionView { version: v, fields: fs }, s5)),
                    },
                },
            },
        },
    }
}

proof fn lemma_rt_def(d: DefinitionView, rest: Seq<char>)
    ensures
        p_def(spec_render_def(d) + rest) == Some((d, rest)),
        spec_render_def(d).len() >= 1,
        spec_render_def(d)[0] == '{',
{
    reveal(p_def);
    lemma_grammar_literals();
    let t4 = "}"@ + rest;
    let t3 = spec_render_fields(d.fields) + (seq![']'] + t4);
    let t2 = ",\"fields\":["@ + t3;
    let t1 = spec_render_u32(d.version as nat) + t2;
    let s = "{\"version\":"@ + t1;
    assert(spec_render_def(d) + rest =~= s);
    lemma_rt_lit("{\"version\":"@, t1);
    lemma_rt_u32(d.version, t2);
    lemma_rt_lit(",\"fields\":["@, t3);
    lemma_rt_fields(d.fields, t4);
    lemma_rt_lit("}"@, rest);
    assert(DefinitionView { version: d.version, fields: d.fields } =~= d);
    assert(spec_render_def(d).len() >= 1 && spec_render_def(d)[0] == '{') by {
        assert(spec_render_def(d) =~= s.take(spec_render_def(d).len() as int));
        assert(s[0] == '{');
        assert(spec_render_def(d)[0] == s[0]);
    }
}

/// Rendering of a non-empty definition list, comma separated.
pub open spec fn spec_render_defs_ne(ds: Seq<DefinitionView>) -> Seq<char>
    decreases ds.len(),
{
    if ds.len() <= 1 {
        spec_render_def(ds[0])
    } else {
        spec_render_defs_ne(ds.drop_last()) + (","@ + spec_render_def(ds.last()))
    }
}

/// Rendering of a definition list without its brackets.
pub open spec fn spec_render_defs(ds: Seq<DefinitionView>) -> Seq<char> {
    if ds.len() == 0 {
        Seq::<char>::empty()
    } else {
        spec_render_defs_ne(ds)
    }
}

/// Consumes definition objects separated by commas until a closing bracket.
pub open spec fn p_defs_more(s: Seq<char>) -> Option<(Seq<DefinitionView>, Seq<char>)>
    decreases s.len(),
{
    match p_def(s) {
        None => None,
        Some((d, r)) => if r.len() < s.len() {
            if r.len() > 0 && r[0] == ',' {
                match p_defs_more(r.drop_first()) {
                    Some(p) => Some((seq![d] + p.0, p.1)),
                    None => None,
                }
            } else if r.len() > 0 && r[0] == ']' {
                Some((seq![d], r.drop_first()))
            } else {
                None
            }
        } else {
            None
        },
    }
}

/// Consumes a possibly empty definition list and its closing bracket.
pub open spec fn p_defs(s: Seq<char>) -> Option<(Seq<DefinitionView>, Seq<char>)> {
    if s.len() > 0 && s[0] == ']' {
        Some((Seq::<DefinitionView>::empty(), s.skip(1)))
    } else {
        p_defs_more(s)
    }
}

proof fn lemma_render_defs_head(ds: Seq<DefinitionView>)
    requires
        ds.len() >= 2,
    ensures
        spec_render_defs_ne(ds) == spec_render_def(ds[0]) + (","@ + spec_render_defs_ne(
            ds.drop_first(),
        )),
    decreases ds.len(),
{
    if ds.len() == 2 {
        assert(ds.drop_last()[0] == ds[0]);
        assert(ds.drop_first()[0] == ds[1]);
        assert(spec_render_defs_ne(ds.drop_last()) == spec_render_def(ds[0]));
        assert(spec_render_defs_ne(ds.drop_first()) == spec_render_def(ds[1]));
        assert(ds.last() == ds[1]);
    } else {
        lemma_render_defs_head(ds.drop_last());
        assert(ds.drop_last().drop_first() =~= ds.drop_first().drop_last());
        assert(ds.drop_last()[0] == ds[0]);
        assert(ds.drop_first().last() == ds.last());
        assert(ds.drop_first().len() >= 2);
        let a = spec_render_def(ds[0]);
        let b = spec_render_defs_ne(ds.drop_first().drop_last());
        let d = spec_render_def(ds.last());
        assert(spec_render_defs_ne(ds.drop_last()) == a + (","@ + b));
        assert(spec_render_defs_ne(ds) == (a + (","@ + b)) + (","@ + d));
        assert(spec_render_defs_ne(ds.drop_first()) == b + (","@ + d));
        assert((a + (","@ + b)) + (","@ + d) =~= a + (","@ + (b + (","@ + d))));
    }
}

proof fn lemma_rt_defs_more(ds: Seq<DefinitionView>, rest: Seq<char>)
    requires
        ds.len() >= 1,
    ensures
        p_defs_more(spec_render_defs_ne(ds) + (seq![']'] + rest)) == Some((ds, rest)),
    decreases ds.len(),
{
    lemma_grammar_literals();
    if ds.len() == 1 {
        let s = spec_render_def(ds[0]) + (seq![']'] + rest);
        assert(spec_render_defs_ne(ds) + (seq![']'] + rest) =~= s);
        lemma_rt_def(ds[0], seq![']'] + rest);
        let r = seq![']'] + rest;
        assert(s.len() == spec_render_def(ds[0]).len() + r.len());
        assert(r.len() < s.len());
        assert(r[0] == ']');
        assert(r.drop_first() =~= rest);
        assert(seq![ds[0]] =~= ds);
    } else {
        lemma_render_defs_head(ds);
        let u = spec_render_defs_ne(ds.drop_first()) + (seq![']'] + rest);
        let s = spec_render_def(ds[0]) + (seq![','] + u);
        assert(spec_render_defs_ne(ds) + (seq![']'] + rest) =~= s) by {
            assert(","@ =~= seq![',']);
        }
        lemma_rt_def(ds[0], seq![','] + u);
        let r = seq![','] + u;
        assert(s.len() == spec_render_def(ds[0]).len() + r.len());
        assert(r.len() < s.len());
        assert(r[0] == ',');
        assert(r.drop_first() =~= u);
        lemma_rt_defs_more(ds.drop_first(), rest);
        assert(seq![ds[0]] + ds.drop_first() =~= ds);
    }
}

proof fn lemma_rt_defs(ds: Seq<DefinitionView>, rest: Seq<char>)
    ensures
        p_defs(spec_render_defs(ds) + (seq![']'] + rest)) == Some((ds, rest)),
{
    lemma_grammar_literals();
    if ds.len() == 0 {
        let s = spec_render_defs(ds) + (seq![']'] + rest);
        assert(s =~= seq![']'] + rest);
        assert(s[0] == ']');
        assert(s.skip(1) =~= rest);
        assert(ds =~= Seq::<DefinitionView>::empty());
    } else {
        let s = spec_render_defs(ds) + (seq![']'] + rest);
        lemma_rt_def(ds[0], rest);
        assert(s[0] == '{') by {
            if ds.len() >= 2 {
                lemma_render_defs_head(ds);
            }
            assert(s[0] == spec_render_def(ds[0])[0]);
        }
        lemma_rt_defs_more(ds, rest);
    }
}

// ---------------------------------------------------------------------------
// Tables
// ---------------------------------------------------------------------------

/// Rendering of one table definition set object.
pub open spec fn spec_render_table(t: TableSetView) -> Seq<char> {
    "{\"name\":\""@ + spec_escape(t.name) + "\",\"definitions\":["@ + spec_render_defs(t.versions)
        + "]"@ + "}"@
}

/// Consumes one table definition set object.
#[verifier::opaque]
pub open spec fn p_table(s: Seq<char>) -> Option<(TableSetView, Seq<char>)> {
    match p_lit(s, "{\"name\":\""@) {
        None => None,
        Some(s1) => match p_string(s1) {
            None => None,
            Some((name, s2)) => match p_lit(s2, "\",\"definitions\":["@) {
                None => None,
                Some(s3) => match p_defs(s3) {
                    None => None,
                    Some((ds, s4)) => match p_lit(s4, "}"@) {
                        None => None,
                        Some(s5) => Some((TableSetView { name, versions: ds }, s5)),
                    },
                },
            },
        },
    }
}

proof fn lemma_rt_table(t: TableSetView, rest: Seq<char>)
    ensures
        p_table(spec_render_table(t) + rest) == Some((t, rest)),
        spec_render_table(t).len() >= 1,
        spec_render_table(t)[0] == '{',
{
    reveal(p_table);
    lemma_grammar_literals();
    let t4 = "}"@ + rest;
    let t3 = spec_render_defs(t.versions) + (seq![']'] + t4);
    let t2 = "\",\"definitions\":["@ + t3;
    let t1 = spec_escape(t.name) + t2;
    let s = "{\"name\":\""@ + t1;
    assert(spec_render_table(t) + rest =~= s);
    lemma_rt_lit("{\"name\":\""@, t1);
    lemma_rt_string(t.name, t2);
    lemma_rt_lit("\",\"definitions\":["@, t3);
    lemma_rt_defs(t.versions, t4);
    lemma_rt_lit("}"@, rest);
    assert(TableSetView { name: t.name, versions: t.versions } =~= t);
    assert(spec_render_table(t).len() >= 1 && spec_render_table(t)[0] == '{') by {
        assert(spec_render_table(t) =~= s.take(spec_render_table(t).len() as int));
        assert(s[0] == '{');
        assert(spec_render_table(t)[0] == s[0]);
    }
}

/// Rendering of a non-empty table list, comma separated.
pub open spec fn spec_render_tables_ne(ts: Seq<TableSetView>) -> Seq<char>
    decreases ts.len(),
{
    if ts.len() <= 1 {
        spec_render_table(ts[0])
    } else {
        spec_render_tables_ne(ts.drop_last()) + (","@ + spec_render_table(ts.last()))
    }
}

/// Rendering of a table list without its brackets.
pub open spec fn spec_render_tables(ts: Seq<TableSetView>) -> Seq<char> {
    if ts.len() == 0 {
        Seq::<char>::empty()
    } else {
        spec_render_tables_ne(ts)
    }
}

/// Consumes table objects separated by commas until a closing bracket.
pub open spec fn p_tables_more(s: Seq<char>) -> Option<(Seq<TableSetView>, Seq<char>)>
    decreases s.len(),
{
    match p_table(s) {
        None => None,
        Some((t, r)) => if r.len() < s.len() {
            if r.len() > 0 && r[0] == ',' {
                match p_tables_more(r.drop_first()) {
                    Some(p) => Some((seq![t] + p.0, p.1)),
                    None => None,
                }
            } else if r.len() > 0 && r[0] == ']' {
                Some((seq![t], r.drop_first()))
            } else {
                None
            }
        } else {
            None
        },
    }
}

/// Consumes a possibly empty table list and its closing bracket.
pub open spec fn p_tables(s: Seq<char>) -> Option<(Seq<TableSetView>, Seq<char>)> {
    if s.len() > 0 && s[0] == ']' {
        Some((Seq::<TableSetView>::empty(), s.skip(1)))
    } else {
        p_tables_more(s)
    }
}

proof fn lemma_render_tables_head(ts: Seq<TableSetView>)
    requires
        ts.len() >= 2,
    ensures
        spec_render_tables_ne(ts) == spec_render_table(ts[0]) + (","@ + spec_render_tables_ne(
            ts.drop_first(),
        )),
    decreases ts.len(),
{
    if ts.len() == 2 {
        assert(ts.drop_last()[0] == ts[0]);
        assert(ts.drop_first()[0] == ts[1]);
        assert(spec_render_tables_ne(ts.drop_last()) == spec_render_table(ts[0]));
        assert(spec_render_tables_ne(ts.drop_first()) == spec_render_table(ts[1]));
        assert(ts.last() == ts[1]);
    } else {
        lemma_render_tables_head(ts.drop_last());
        assert(ts.drop_last().drop_first() =~= ts.drop_first().drop_last());
        assert(ts.drop_last()[0] == ts[0]);
        assert(ts.drop_first().last() == ts.last());
        assert(ts.drop_first().len() >= 2);
        let a = spec_render_table(ts[0]);
        let b = spec_render_tables_ne(ts.drop_first().drop_last());
        let d = spec_render_table(ts.last());
        assert(spec_render_tables_ne(ts.drop_last()) == a + (","@ + b));
        assert(spec_render_tables_ne(ts) == (a + (","@ + b)) + (","@ + d));
        assert(spec_render_tables_ne(ts.drop_first()) == b + (","@ + d));
        assert((a + (","@ + b)) + (","@ + d) =~= a + (","@ + (b + (","@ + d))));
    }
}

proof fn lemma_rt_tables_more(ts: Seq<TableSetView>, rest: Seq<char>)
    requires
        ts.len() >= 1,
    ensures
        p_tables_more(spec_render_tables_ne(ts) + (seq![']'] + rest)) == Some((ts, rest)),
    decreases ts.len(),
{
    lemma_grammar_literals();
    if ts.len() == 1 {
        let s = spec_render_table(ts[0]) + (seq![']'] + rest);
        assert(spec_render_tables_ne(ts) + (seq![']'] + rest) =~= s);
        lemma_rt_table(ts[0], seq![']'] + rest);
        let r = seq![']'] + rest;
        assert(s.len() == spec_render_table(ts[0]).len() + r.len());
        assert(r.len() < s.len());
        assert(r[0] == ']');
        assert(r.drop_first() =~= rest);
        assert(seq![ts[0]] =~= ts);
    } else {
        lemma_render_tables_head(ts);
        let u = spec_render_tables_ne(ts.drop_first()) + (seq![']'] + rest);
        let s = spec_render_table(ts[0]) + (seq![','] + u);
        assert(spec_render_tables_ne(ts) + (seq![']'] + rest) =~= s) by {
            assert(","@ =~= seq![',']);
        }
        lemma_rt_table(ts[0], seq![','] + u);
        let r = seq![','] + u;
        assert(s.len() == spec_render_table(ts[0]).len() + r.len());
        assert(r.len() < s.len());
        assert(r[0] == ',');
        assert(r.drop_first() =~= u);
        lemma_rt_tables_more(ts.drop_first(), rest);
        assert(seq![ts[0]] + ts.drop_first() =~= ts);
    }
}

proof fn lemma_rt_tables(ts: Seq<TableSetView>, rest: Seq<char>)
    ensures
        p_tables(spec_render_tables(ts) + (seq![']'] + rest)) == Some((ts, rest)),
{
    lemma_grammar_literals();
    if ts.len() == 0 {
        let s = spec_render_tables(ts) + (seq![']'] + rest);
        assert(s =~= seq![']'] + rest);
        assert(s[0] == ']');
        assert(s.skip(1) =~= rest);
        assert(ts =~= Seq::<TableSetView>::empty());
    } else {
        let s = spec_render_tables(ts) + (seq![']'] + rest);
        lemma_rt_table(ts[0], rest);
        assert(s[0] == '{') by {
            if ts.len() >= 2 {
                lemma_render_tables_head(ts);
            }
            assert(s[0] == spec_render_table(ts[0])[0]);
        }
        lemma_rt_tables_more(ts, rest);
    }
}

// ---------------------------------------------------------------------------
// The whole document
// ---------------------------------------------------------------------------

/// Rendering of the whole registry.
pub open spec fn spec_render_schema(v: SchemaView) -> Seq<char> {
    "{\"game\":\""@ + spec_escape(v.game) + "\",\"version\":"@ + spec_render_u32(v.version as nat)
        + ",\"tables\":["@ + spec_render_tables(v.tables) + "]"@ + "}"@
}

/// Consumes one registry object.
pub open spec fn p_schema(s: Seq<char>) -> Option<(SchemaView, Seq<char>)> {
    match p_lit(s, "{\"game\":\""@) {
        None => None,
        Some(s1) => match p_string(s1) {
            None => None,
            Some((game, s2)) => match p_lit(s2, "\",\"version\":"@) {
                None => None,
                Some(s3) => match p_u32(s3) {
                    None => None,
                    Some((v, s4)) => match p_lit(s4, ",\"tables\":["@) {
                        None => None,
                        Some(s5) => match p_tables(s5) {
                            None => None,
                            Some((ts, s6)) => match p_lit(s6, "}"@) {
                                None => None,
                                Some(s7) => Some(
                                    (SchemaView { game, version: v, tables: ts }, s7),
                                ),
                            },
                        },
                    },
                },
            },
        },
    }
}

/// The whole document: one registry object and nothing after it.
pub open spec fn spec_parse_document(s: Seq<char>) -> Option<SchemaView> {
    match p_schema(s) {
        Some((v, r)) => if r.len() == 0 {
            Some(v)
        } else {
            None
        },
        None => None,
    }
}

proof fn lemma_rt_schema(v: SchemaView, rest: Seq<char>)
    ensures
        p_schema(spec_render_schema(v) + rest) == Some((v, rest)),
{
    lemma_grammar_literals();
    let t5 = "}"@ + rest;
    let t4 = spec_render_tables(v.tables) + (seq![']'] + t5);
    let t3 = ",\"tables\":["@ + t4;
    let t2 = spec_render_u32(v.version as nat) + t3;
    let t1 = "\",\"version\":"@ + t2;
    let t0 = spec_escape(v.game) + t1;
    let s = "{\"game\":\""@ + t0;
    assert(spec_render_schema(v) + rest =~= s);
    lemma_rt_lit("{\"game\":\""@, t0);
    lemma_rt_string(v.game, t1);
    lemma_rt_lit("\",\"version\":"@, t2);
    lemma_rt_u32(v.version, t3);
    lemma_rt_lit(",\"tables\":["@, t4);
    lemma_rt_tables(v.tables, t5);
    lemma_rt_lit("}"@, rest);
    assert(SchemaView { game: v.game, version: v.version, tables: v.tables } =~= v);
}

/// The round trip: parsing a rendered registry gives the registry back,
/// every field, order and variant tag preserved.
pub proof fn lemma_render_parse_round_trip(v: SchemaView)
    ensures
        spec_parse_document(spec_render_schema(v)) == Some(v),
{
    lemma_rt_schema(v, Seq::<char>::empty());
    assert(spec_render_schema(v) + Seq::<char>::empty() =~= spec_render_schema(v));
}

// ---------------------------------------------------------------------------
// Rendering, executable
// ---------------------------------------------------------------------------

/// Appends the string with `"` and `\` escaped.
fn push_escaped(out: &mut Vec<char>, s: &str)
    ensures
        final(out)@ == old(out)@ + spec_escape(s@),
{
    let n = s.unicode_len();
    let mut i: usize = 0;
    proof {
        assert(s@.take(0) =~= Seq::<char>::empty());
        assert(spec_escape(s@.take(0)) == Seq::<char>::empty());
        assert(out@ =~= old(out)@ + spec_escape(s@.take(0)));
    }
    while i < n
        invariant
            n == s@.len(),
            0 <= i <= n,
            out@ == old(out)@ + spec_escape(s@.take(i as int)),
        decreases n - i,
    {
        let c = s.get_char(i);
        proof {
            assert(s@.take(i + 1) =~= s@.take(i as int).push(s@[i as int]));
            lemma_escape_snoc(s@.take(i as int), s@[i as int]);
        }
        if c == '"' || c == '\\' {
            out.push('\\');
            out.push(c);
            proof {
                assert(out@ =~= old(out)@ + spec_escape(s@.take(i + 1)));
            }
        } else {
            out.push(c);
            proof {
                assert(out@ =~= old(out)@ + spec_escape(s@.take(i + 1)));
            }
        }
        i += 1;
    }
    proof {
        assert(s@.take(n as int) =~= s@);
    }
}

/// Appends the decimal rendering of a 32-bit number.
fn push_u32(out: &mut Vec<char>, n: u32)
    ensures
        final(out)@ == old(out)@ + spec_render_u32(n as nat),
    decreases n,
{
    if n < 10 {
        let c = digit_char_of(n);
        out.push(c);
        proof {
            assert(out@ =~= old(out)@ + spec_render_u32(n as nat));
        }
    } else {
        push_u32(out, n / 10);
        let c = digit_char_of(n % 10);
        out.push(c);
        proof {
            assert(out@ =~= old(out)@ + spec_render_u32(n as nat));
        }
    }
}

/// The character of one digit.
fn digit_char_of(d: u32) -> (c: char)
    requires
        d < 10,
    ensures
        c == digit_char(d as nat),
{
    if d == 0 {
        '0'
    } else if d == 1 {
        '1'
    } else if d == 2 {
        '2'
    } else if d == 3 {
        '3'
    } else if d == 4 {
        '4'
    } else if d == 5 {
        '5'
    } else if d == 6 {
        '6'
    } else if d == 7 {
        '7'
    } else if d == 8 {
        '8'
    } else {
        '9'
    }
}

/// Appends one field object.
#[verifier::rlimit(80)]
#[verifier::spinoff_prover]
fn push_field(out: &mut Vec<char>, f: &Field)
    ensures
        final(out)@ == old(out)@ + spec_render_field(f@),
{
    push_str_chars(out, "{\"field_name\":\"");
    push_escaped(out, f.field_name.as_str());
    push_str_chars(out, "\",\"field_type\":\"");
    match &f.field_type {
        FieldType::Boolean => push_str_chars(out, "Boolean"),
        FieldType::Float => push_str_chars(out, "Float"),
        FieldType::Integer => push_str_chars(out, "Integer"),
        FieldType::StringU8 => push_str_chars(out, "StringU8"),
        FieldType::StringU16 => push_str_chars(out, "StringU16"),
        FieldType::OptionalStringU8 => push_str_chars(out, "OptionalStringU8"),
        FieldType::OptionalStringU16 => push_str_chars(out, "OptionalStringU16"),
    }
    push_str_chars(out, "\",\"field_is_key\":");
    if f.field_is_key {
        push_str_chars(out, "true");
    } else {
        push_str_chars(out, "false");
    }
    push_str_chars(out, ",\"field_is_reference\":");
    match &f.field_is_reference {
        None => push_str_chars(out, "null"),
        Some(p) => {
            push_str_chars(out, "[\"");
            push_escaped(out, p.0.as_str());
            push_str_chars(out, "\",\"");
            push_escaped(out, p.1.as_str());
            push_str_chars(out, "\"]");
        },
    }
    push_str_chars(out, ",\"field_description\":\"");
    push_escaped(out, f.field_description.as_str());
    push_str_chars(out, "\"}");
    proof {
        assert(out@ =~= old(out)@ + spec_render_field(f@));
    }
}

/// Appends a field list, comma separated, without brackets.
fn push_fields(out: &mut Vec<char>, fs: &Vec<Field>)
    ensures
        final(out)@ == old(out)@ + spec_render_fields(fs@.map_values(|f: Field| f@)),
{
    let ghost views = fs@.map_values(|f: Field| f@);
    let n = fs.len();
    let mut i: usize = 0;
    proof {
        assert(out@ =~= old(out)@ + spec_render_fields(views.take(0)));
    }
    while i < n
        invariant
            n == fs@.len(),
            views == fs@.map_values(|f: Field| f@),
            0 <= i <= n,
            out@ == old(out)@ + spec_render_fields(views.take(i as int)),
        decreases n - i,
    {
        proof {
            lemma_grammar_literals();
            assert(views.take(i + 1).drop_last() =~= views.take(i as int));
            assert(views.take(i + 1).last() == views[i as int]);
            assert(views[i as int] == fs@[i as int]@);
        }
        if i > 0 {
            out.push(',');
        }
        push_field(out, &fs[i]);
        proof {
            if i == 0 {
                assert(spec_render_fields(views.take(1)) == spec_render_field(views[0]));
                assert(out@ =~= old(out)@ + spec_render_fields(views.take(i + 1)));
            } else {
                assert(spec_render_fields_ne(views.take(i + 1)) == spec_render_fields_ne(
                    views.take(i as int),
                ) + (","@ + spec_render_field(views[i as int])));
                assert(","@ =~= seq![',']);
                assert(out@ =~= old(out)@ + spec_render_fields(views.take(i + 1)));
            }
        }
        i += 1;
    }
    proof {
        assert(views.take(n as int) =~= views);
    }
}

/// Appends one definition object.
fn push_def(out: &mut Vec<char>, d: &TableDefinition)
    ensures
        final(out)@ == old(out)@ + spec_render_def(d@),
{
    push_str_chars(out, "{\"version\":");
    push_u32(out, d.version);
    push_str_chars(out, ",\"fields\":[");
    push_fields(out, &d.fields);
    push_str_chars(out, "]");
    push_str_chars(out, "}");
    proof {
        assert(out@ =~= old(out)@ + spec_render_def(d@));
    }
}

/// Appends a definition list, comma separated, without brackets.
fn push_defs(out: &mut Vec<char>, ds: &Vec<TableDefinition>)
    ensures
        final(out)@ == old(out)@ + spec_render_defs(ds@.map_values(|d: TableDefinition| d@)),
{
    let ghost views = ds@.map_values(|d: TableDefinition| d@);
    let n = ds.len();
    let mut i: usize = 0;
    proof {
        assert(out@ =~= old(out)@ + spec_render_defs(views.take(0)));
    }
    while i < n
        invariant
            n == ds@.len(),
            views == ds@.map_values(|d: TableDefinition| d@),
            0 <= i <= n,
            out@ == old(out)@ + spec_render_defs(views.take(i as int)),
        decreases n - i,
    {
        proof {
            lemma_grammar_literals();
            assert(views.take(i + 1).drop_last() =~= views.take(i as int));
            assert(views.take(i + 1).last() == views[i as int]);
            assert(views[i as int] == ds@[i as int]@);
        }
        if i > 0 {
            out.push(',');
        }
        push_def(out, &ds[i]);
        proof {
            if i == 0 {
                assert(spec_render_defs(views.take(1)) == spec_render_def(views[0]));
                assert(out@ =~= old(out)@ + spec_render_defs(views.take(i + 1)));
            } else {
                assert(spec_render_defs_ne(views.take(i + 1)) == spec_render_defs_ne(
                    views.take(i as int),
                ) + (","@ + spec_render_def(views[i as int])));
                assert(","@ =~= seq![',']);
                assert(out@ =~= old(out)@ + spec_render_defs(views.take(i + 1)));
            }
        }
        i += 1;
    }
    proof {
        assert(views.take(n as int) =~= views);
    }
}

/// Appends one table definition set object.
fn push_table(out: &mut Vec<char>, t: &TableDefinitions)
    ensures
        final(out)@ == old(out)@ + spec_render_table(t@),
{
    push_str_chars(out, "{\"name\":\"");
    push_escaped(out, t.name.as_str());
    push_str_chars(out, "\",\"definitions\":[");
    push_defs(out, &t.versions);
    push_str_chars(out, "]");
    push_str_chars(out, "}");
    proof {
        assert(out@ =~= old(out)@ + spec_render_table(t@));
    }
}

/// Appends a table list, comma separated, without brackets.
fn push_tables(out: &mut Vec<char>, ts: &Vec<TableDefinitions>)
    ensures
        final(out)@ == old(out)@ + spec_render_tables(ts@.map_values(|t: TableDefinitions| t@)),
{
    let ghost views = ts@.map_values(|t: TableDefinitions| t@);
    let n = ts.len();
    let mut i: usize = 0;
    proof {
        assert(out@ =~= old(out)@ + spec_render_tables(views.take(0)));
    }
    while i < n
        invariant
            n == ts@.len(),
            views == ts@.map_values(|t: TableDefinitions| t@),
            0 <= i <= n,
            out@ == old(out)@ + spec_render_tables(views.take(i as int)),
        decreases n - i,
    {
        proof {
            lemma_grammar_literals();
            assert(views.take(i + 1).drop_last() =~= views.take(i as int));
            assert(views.take(i + 1).last() == views[i as int]);
            assert(views[i as int] == ts@[i as int]@);
        }
        if i > 0 {
            out.push(',');
        }
        push_table(out, &ts[i]);
        proof {
            if i == 0 {
                assert(spec_render_tables(views.take(1)) == spec_render_table(views[0]));
                assert(out@ =~= old(out)@ + spec_render_tables(views.take(i + 1)));
            } else {
                assert(spec_render_tables_ne(views.take(i + 1)) == spec_render_tables_ne(
                    views.take(i as int),
                ) + (","@ + spec_render_table(views[i as int])));
                assert(","@ =~= seq![',']);
                assert(out@ =~= old(out)@ + spec_render_tables(views.take(i + 1)));
            }
        }
        i += 1;
    }
    proof {
        assert(views.take(n as int) =~= views);
    }
}

impl Schema {
    /// Renders the whole registry as the document's character sequence.
    pub fn render(&self) -> (out: Vec<char>)
        ensures
            out@ == spec_render_schema(self@),
    {
        let mut out: Vec<char> = Vec::new();
        push_str_chars(&mut out, "{\"game\":\"");
        push_escaped(&mut out, self.game.as_str());
        push_str_chars(&mut out, "\",\"version\":");
        push_u32(&mut out, self.version);
        push_str_chars(&mut out, ",\"tables\":[");
        push_tables(&mut out, &self.tables_definitions);
        push_str_chars(&mut out, "]");
        push_str_chars(&mut out, "}");
        proof {
            assert(out@ =~= spec_render_schema(self@));
        }
        out
    }
}

// ---------------------------------------------------------------------------
// Parsing, executable
// ---------------------------------------------------------------------------

/// Prepends already-parsed elements to the result of a partial parse.
pub open spec fn prepend_parsed<T>(p: Seq<T>, o: Option<(Seq<T>, Seq<char>)>) -> Option<
    (Seq<T>, Seq<char>),
> {
    match o {
        Some(q) => Some((p + q.0, q.1)),
        None => None,
    }
}

/// Consumes an exact literal at the given position.
fn expect_lit(input: &Vec<char>, pos: usize, lit: &str) -> (r: Option<usize>)
    requires
        pos <= input@.len(),
    ensures
        match r {
            Some(np) => pos + lit@.len() == np && np <= input@.len() && p_lit(
                input@.skip(pos as int),
                lit@,
            ) == Some(input@.skip(np as int)),
            None => p_lit(input@.skip(pos as int), lit@) is None,
        },
{
    let n = lit.unicode_len();
    let ilen = input.len();
    if n > ilen - pos {
        return None;
    }
    let mut j: usize = 0;
    while j < n
        invariant
            n == lit@.len(),
            ilen == input@.len(),
            pos + n <= ilen,
            0 <= j <= n,
            forall|k: int| 0 <= k < j ==> input@[pos + k] == lit@[k],
        decreases n - j,
    {
        let c = input[pos + j];
        let l = lit.get_char(j);
        if c != l {
            proof {
                let s = input@.skip(pos as int);
                assert(s.take(n as int)[j as int] == s[j as int]);
                assert(s[j as int] == input@[pos + j]);
            }
            return None;
        }
        j += 1;
    }
    proof {
        let s = input@.skip(pos as int);
        assert(s.take(n as int) =~= lit@);
        lemma_skip_skip(input@, pos as int, n as int);
    }
    Some(pos + n)
}

/// Consumes an escaped string body up to its closing double quote, which is
/// left in place.
fn parse_string(input: &Vec<char>, pos: usize) -> (r: Option<(String, usize)>)
    requires
        pos <= input@.len(),
    ensures
        match r {
            Some(p) => pos <= p.1 <= input@.len() && p_string(input@.skip(pos as int)) == Some(
                (p.0@, input@.skip(p.1 as int)),
            ),
            None => p_string(input@.skip(pos as int)) is None,
        },
{
    let mut acc = String::new();
    let mut cur: usize = pos;
    while cur < input.len()
        invariant
            pos <= cur <= input@.len(),
            p_string(input@.skip(pos as int)) == prepend_parsed(
                acc@,
                p_string(input@.skip(cur as int)),
            ),
        decreases input@.len() - cur,
    {
        let c = input[cur];
        if c == '"' {
            proof {
                let s = input@.skip(cur as int);
                assert(s.len() > 0 && s[0] == c);
                assert(p_string(s) == Some((Seq::<char>::empty(), s)));
                assert(acc@ + Seq::<char>::empty() =~= acc@);
            }
            return Some((acc, cur));
        } else if c == '\\' {
            if cur + 1 == input.len() {
                proof {
                    let s = input@.skip(cur as int);
                    assert(s.len() == 1 && s[0] == '\\');
                }
                return None;
            }
            let c2 = input[cur + 1];
            proof {
                let s = input@.skip(cur as int);
                assert(s[0] == '\\' && s.len() >= 2);
                assert(s[1] == c2);
                lemma_skip_skip(input@, cur as int, 2);
                assert(s.skip(2) == input@.skip(cur + 2));
                match p_string(input@.skip(cur + 2)) {
                    Some(q) => {
                        assert(p_string(s) == Some((seq![c2] + q.0, q.1)));
                        assert(acc@ + (seq![c2] + q.0) =~= acc@.push(c2) + q.0);
                    },
                    None => {
                        assert(p_string(s) is None);
                    },
                }
            }
            push_char(&mut acc, c2);
            cur = cur + 2;
        } else {
            proof {
                let s = input@.skip(cur as int);
                assert(s[0] == c && c != '"' && c != '\\');
                lemma_skip_skip(input@, cur as int, 1);
                assert(s.drop_first() =~= s.skip(1));
                match p_string(input@.skip(cur + 1)) {
                    Some(q) => {
                        assert(p_string(s) == Some((seq![c] + q.0, q.1)));
                        assert(acc@ + (seq![c] + q.0) =~= acc@.push(c) + q.0);
                    },
                    None => {
                        assert(p_string(s) is None);
                    },
                }
            }
            push_char(&mut acc, c);
            cur = cur + 1;
        }
    }
    proof {
        assert(input@.skip(cur as int).len() == 0);
    }
    None
}

/// The value of one digit character.
fn char_digit(c: char) -> (d: Option<u64>)
    ensures
        match d {
            Some(v) => is_digit(c) && v as nat == digit_val(c),
            None => !is_digit(c),
        },
{
    if c == '0' {
        Some(0)
    } else if c == '1' {
        Some(1)
    } else if c == '2' {
        Some(2)
    } else if c == '3' {
        Some(3)
    } else if c == '4' {
        Some(4)
    } else if c == '5' {
        Some(5)
    } else if c == '6' {
        Some(6)
    } else if c == '7' {
        Some(7)
    } else if c == '8' {
        Some(8)
    } else if c == '9' {
        Some(9)
    } else {
        None
    }
}

/// Consumes a decimal number that fits in 32 bits.
fn parse_u32(input: &Vec<char>, pos: usize) -> (r: Option<(u32, usize)>)
    requires
        pos <= input@.len(),
    ensures
        match r {
            Some(p) => pos <= p.1 <= input@.len() && p_u32(input@.skip(pos as int)) == Some(
                (p.0, input@.skip(p.1 as int)),
            ),
            None => p_u32(input@.skip(pos as int)) is None,
        },
{
    let mut cur: usize = pos;
    let mut val: u64 = 0;
    let mut overflow = false;
    let mut done = false;
    while !done
        invariant
            pos <= cur <= input@.len(),
            forall|k: int| pos <= k < cur ==> is_digit(#[trigger] input@[k]),
            !overflow ==> val as nat == digits_val(input@.subrange(pos as int, cur as int))
                && val <= u32::MAX as u64,
            overflow ==> digits_val(input@.subrange(pos as int, cur as int)) > u32::MAX as nat,
            done ==> cur == input@.len() || !is_digit(input@[cur as int]),
        decreases input@.len() - cur + (if done { 0int } else { 1int }),
    {
        if cur >= input.len() {
            done = true;
        } else {
            let c = input[cur];
            match char_digit(c) {
                None => {
                    done = true;
                },
                Some(d) => {
                    proof {
                        let ds = input@.subrange(pos as int, cur as int);
                        let ds2 = input@.subrange(pos as int, cur + 1);
                        assert(ds2 =~= ds.push(c));
                        assert(ds2.drop_last() =~= ds);
                        assert(ds2.last() == c);
                        assert(digits_val(ds2) == digits_val(ds) * 10 + digit_val(c));
                    }
                    if !overflow {
                        let nv = val * 10 + d;
                        if nv > 0xFFFF_FFFFu64 {
                            overflow = true;
                        } else {
                            val = nv;
                        }
                    }
                    cur = cur + 1;
                },
            }
        }
    }
    proof {
        let ds = input@.subrange(pos as int, cur as int);
        let rest = input@.skip(cur as int);
        assert(ds + rest =~= input@.skip(pos as int));
        assert(forall|i: int| 0 <= i < ds.len() ==> is_digit(#[trigger] ds[i])) by {
            assert(forall|i: int| 0 <= i < ds.len() ==> ds[i] == input@[pos + i]);
        }
        assert(rest.len() == 0 || !is_digit(rest[0]));
        lemma_p_digits_concat(ds, rest);
    }
    if cur == pos {
        return None;
    }
    if overflow {
        return None;
    }
    Some((val as u32, cur))
}

/// The field type a tag string parses to.
fn tag_of(s: &str) -> (r: Option<FieldType>)
    ensures
        r == spec_tag_type(s@),
{
    if str_eq(s, "Boolean") {
        Some(FieldType::Boolean)
    } else if str_eq(s, "Float") {
        Some(FieldType::Float)
    } else if str_eq(s, "Integer") {
        Some(FieldType::Integer)
    } else if str_eq(s, "StringU8") {
        Some(FieldType::StringU8)
    } else if str_eq(s, "StringU16") {
        Some(FieldType::StringU16)
    } else if str_eq(s, "OptionalStringU8") {
        Some(FieldType::OptionalStringU8)
    } else if str_eq(s, "OptionalStringU16") {
        Some(FieldType::OptionalStringU16)
    } else {
        None
    }
}

/// Consumes `true` or `false`.
fn parse_bool(input: &Vec<char>, pos: usize) -> (r: Option<(bool, usize)>)
    requires
        pos <= input@.len(),
    ensures
        match r {
            Some(p) => pos <= p.1 <= input@.len() && p_bool(input@.skip(pos as int)) == Some(
                (p.0, input@.skip(p.1 as int)),
            ),
            None => p_bool(input@.skip(pos as int)) is None,
        },
{
    match expect_lit(input, pos, "true") {
        Some(np) => Some((true, np)),
        None => match expect_lit(input, pos, "false") {
            Some(np) => Some((false, np)),
            None => None,
        },
    }
}

/// Consumes `null` or a two-element string array.
fn parse_ref(input: &Vec<char>, pos: usize) -> (r: Option<(Option<(String, String)>, usize)>)
    requires
        pos <= input@.len(),
    ensures
        match r {
            Some(p) => pos <= p.1 <= input@.len() && p_ref(input@.skip(pos as int)) == Some(
                (crate::schema::spec_reference_view(p.0), input@.skip(p.1 as int)),
            ),
            None => p_ref(input@.skip(pos as int)) is None,
        },
{
    match expect_lit(input, pos, "null") {
        Some(np) => {
            return Some((None, np));
        },
        None => {},
    }
    let p1 = match expect_lit(input, pos, "[\"") {
        Some(p1) => p1,
        None => {
            return None;
        },
    };
    let (t, p2) = match parse_string(input, p1) {
        Some(p) => p,
        None => {
            return None;
        },
    };
    let p3 = match expect_lit(input, p2, "\",\"") {
        Some(p3) => p3,
        None => {
            return None;
        },
    };
    let (c, p4) = match parse_string(input, p3) {
        Some(p) => p,
        None => {
            return None;
        },
    };
    let p5 = match expect_lit(input, p4, "\"]") {
        Some(p5) => p5,
        None => {
            return None;
        },
    };
    Some((Some((t, c)), p5))
}

/// Consumes one field object.
fn parse_field(input: &Vec<char>, pos: usize) -> (r: Option<(Field, usize)>)
    requires
        pos <= input@.len(),
    ensures
        match r {
            Some(p) => pos < p.1 <= input@.len() && p_field(input@.skip(pos as int)) == Some(
                (p.0@, input@.skip(p.1 as int)),
            ),
            None => p_field(input@.skip(pos as int)) is None,
        },
{
    proof {
        reveal(p_field);
        lemma_grammar_literals();
    }
    let p1 = match expect_lit(input, pos, "{\"field_name\":\"") {
        Some(p1) => p1,
        None => {
            return None;
        },
    };
    let (name, p2) = match parse_string(input, p1) {
        Some(p) => p,
        None => {
            return None;
        },
    };
    let p3 = match expect_lit(input, p2, "\",\"field_type\":\"") {
        Some(p3) => p3,
        None => {
            return None;
        },
    };
    let (tag, p4) = match parse_string(input, p3) {
        Some(p) => p,
        None => {
            return None;
        },
    };
    let ty = match tag_of(tag.as_str()) {
        Some(ty) => ty,
        None => {
            return None;
        },
    };
    let p5 = match expect_lit(input, p4, "\",\"field_is_key\":") {
        Some(p5) => p5,
        None => {
            return None;
        },
    };
    let (key, p6) = match parse_bool(input, p5) {
        Some(p) => p,
        None => {
            return None;
        },
    };
    let p7 = match expect_lit(input, p6, ",\"field_is_reference\":") {
        Some(p7) => p7,
        None => {
            return None;
        },
    };
    let (reference, p8) = match parse_ref(input, p7) {
        Some(p) => p,
        None => {
            return None;
        },
    };
    let p9 = match expect_lit(input, p8, ",\"field_description\":\"") {
        Some(p9) => p9,
        None => {
            return None;
        },
    };
    let (desc, p10) = match parse_string(input, p9) {
        Some(p) => p,
        None => {
            return None;
        },
    };
    let p11 = match expect_lit(input, p10, "\"}") {
        Some(p11) => p11,
        None => {
            return None;
        },
    };
    let f = Field {
        field_name: name,
        field_type: ty,
        field_is_key: key,
        field_is_reference: reference,
        field_description: desc,
    };
    Some((f, p11))
}

/// Consumes a possibly empty field list and its closing bracket.
fn parse_fields(input: &Vec<char>, pos: usize) -> (r: Option<(Vec<Field>, usize)>)
    requires
        pos <= input@.len(),
    ensures
        match r {
            Some(p) => pos <= p.1 <= input@.len() && p_fields(input@.skip(pos as int)) == Some(
                (p.0@.map_values(|f: Field| f@), input@.skip(p.1 as int)),
            ),
            None => p_fields(input@.skip(pos as int)) is None,
        },
{
    if pos < input.len() {
        let c0 = input[pos];
        if c0 == ']' {
            let empty_vec: Vec<Field> = Vec::new();
            proof {
                let s = input@.skip(pos as int);
                assert(s.len() > 0 && s[0] == ']');
                lemma_skip_skip(input@, pos as int, 1);
                assert(empty_vec@.map_values(|f: Field| f@) =~= Seq::<FieldView>::empty());
            }
            return Some((empty_vec, pos + 1));
        }
    }
    let mut acc: Vec<Field> = Vec::new();
    let mut cur: usize = pos;
    proof {
        let s0 = input@.skip(pos as int);
        assert(s0.len() == 0 || s0[0] != ']');
        assert(p_fields(s0) == p_fields_more(s0));
        match p_fields_more(s0) {
            Some(q) => {
                assert(Seq::<FieldView>::empty() + q.0 =~= q.0);
            },
            None => {},
        }
        assert(acc@.map_values(|f: Field| f@) =~= Seq::<FieldView>::empty());
    }
    loop
        invariant
            pos <= cur <= input@.len(),
            p_fields(input@.skip(pos as int)) == prepend_parsed(
                acc@.map_values(|f: Field| f@),
                p_fields_more(input@.skip(cur as int)),
            ),
        decreases input@.len() - cur,
    {
        match parse_field(input, cur) {
            None => {
                return None;
            },
            Some((f, np)) => {
                let ghost olds = acc@.map_values(|ff: Field| ff@);
                let ghost s = input@.skip(cur as int);
                let ghost rr = input@.skip(np as int);
                proof {
                    assert(rr.len() < s.len());
                }
                acc.push(f);
                proof {
                    assert(acc@.map_values(|ff: Field| ff@) =~= olds.push(f@));
                }
                if np < input.len() {
                    let c = input[np];
                    if c == ',' {
                        proof {
                            assert(rr.len() > 0 && rr[0] == ',');
                            lemma_skip_skip(input@, np as int, 1);
                            assert(rr.drop_first() =~= rr.skip(1));
                            match p_fields_more(input@.skip(np + 1)) {
                                Some(q) => {
                                    assert(p_fields_more(s) == Some((seq![f@] + q.0, q.1)));
                                    assert(olds + (seq![f@] + q.0) =~= olds.push(f@) + q.0);
                                },
                                None => {
                                    assert(p_fields_more(s) is None);
                                },
                            }
                        }
                        cur = np + 1;
                    } else if c == ']' {
                        proof {
                            assert(rr.len() > 0 && rr[0] == ']');
                            lemma_skip_skip(input@, np as int, 1);
                            assert(rr.drop_first() =~= rr.skip(1));
                            assert(p_fields_more(s) == Some((seq![f@], input@.skip(np + 1))));
                            assert(olds + seq![f@] =~= olds.push(f@));
                        }
                        return Some((acc, np + 1));
                    } else {
                        proof {
                            assert(rr.len() > 0 && rr[0] != ',' && rr[0] != ']');
                            assert(p_fields_more(s) is None);
                        }
                        return None;
                    }
                } else {
                    proof {
                        assert(rr.len() == 0);
                        assert(p_fields_more(s) is None);
                    }
                    return None;
                }
            },
        }
    }
}

/// Consumes one definition object.
fn parse_def(input: &Vec<char>, pos: usize) -> (r: Option<(TableDefinition, usize)>)
    requires
        pos <= input@.len(),
    ensures
        match r {
            Some(p) => pos < p.1 <= input@.len() && p_def(input@.skip(pos as int)) == Some(
                (p.0@, input@.skip(p.1 as int)),
            ),
            None => p_def(input@.skip(pos as int)) is None,
        },
{
    proof {
        reveal(p_def);
        lemma_grammar_literals();
    }
    let p1 = match expect_lit(input, pos, "{\"version\":") {
        Some(p1) => p1,
        None => {
            return None;
        },
    };
    let (v, p2) = match parse_u32(input, p1) {
        Some(p) => p,
        None => {
            return None;
        },
    };
    let p3 = match expect_lit(input, p2, ",\"fields\":[") {
        Some(p3) => p3,
        None => {
            return None;
        },
    };
    let (fields, p4) = match parse_fields(input, p3) {
        Some(p) => p,
        None => {
            return None;
        },
    };
    let p5 = match expect_lit(input, p4, "}") {
        Some(p5) => p5,
        None => {
            return None;
        },
    };
    Some((TableDefinition { version: v, fields }, p5))
}

/// Consumes a possibly empty definition list and its closing bracket.
fn parse_defs(input: &Vec<char>, pos: usize) -> (r: Option<(Vec<TableDefinition>, usize)>)
    requires
        pos <= input@.len(),
    ensures
        match r {
            Some(p) => pos <= p.1 <= input@.len() && p_defs(input@.skip(pos as int)) == Some(
                (p.0@.map_values(|d: TableDefinition| d@), input@.skip(p.1 as int)),
            ),
            None => p_defs(input@.skip(pos as int)) is None,
        },
{
    if pos < input.len() {
        let c0 = input[pos];
        if c0 == ']' {
            let empty_vec: Vec<TableDefinition> = Vec::new();
            proof {
                let s = input@.skip(pos as int);
                assert(s.len() > 0 && s[0] == ']');
                lemma_skip_skip(input@, pos as int, 1);
                assert(empty_vec@.map_values(|d: TableDefinition| d@)
                    =~= Seq::<DefinitionView>::empty());
            }
            return Some((empty_vec, pos + 1));
        }
    }
    let mut acc: Vec<TableDefinition> = Vec::new();
    let mut cur: usize = pos;
    proof {
        let s0 = input@.skip(pos as int);
        assert(s0.len() == 0 || s0[0] != ']');
        assert(p_defs(s0) == p_defs_more(s0));
        match p_defs_more(s0) {
            Some(q) => {
                assert(Seq::<DefinitionView>::empty() + q.0 =~= q.0);
            },
            None => {},
        }
        assert(acc@.map_values(|d: TableDefinition| d@) =~= Seq::<DefinitionView>::empty());
    }
    loop
        invariant
            pos <= cur <= input@.len(),
            p_defs(input@.skip(pos as int)) == prepend_parsed(
                acc@.map_values(|d: TableDefinition| d@),
                p_defs_more(input@.skip(cur as int)),
            ),
        decreases input@.len() - cur,
    {
        match parse_def(input, cur) {
            None => {
                return None;
            },
            Some((d, np)) => {
                let ghost olds = acc@.map_values(|dd: TableDefinition| dd@);
                let ghost s = input@.skip(cur as int);
                let ghost rr = input@.skip(np as int);
                proof {
                    assert(rr.len() < s.len());
                }
                acc.push(d);
                proof {
                    assert(acc@.map_values(|dd: TableDefinition| dd@) =~= olds.push(d@));
                }
                if np < input.len() {
                    let c = input[np];
                    if c == ',' {
                        proof {
                            assert(rr.len() > 0 && rr[0] == ',');
                            lemma_skip_skip(input@, np as int, 1);
                            assert(rr.drop_first() =~= rr.skip(1));
                            match p_defs_more(input@.skip(np + 1)) {
                                Some(q) => {
                                    assert(p_defs_more(s) == Some((seq![d@] + q.0, q.1)));
                                    assert(olds + (seq![d@] + q.0) =~= olds.push(d@) + q.0);
                                },
                                None => {
                                    assert(p_defs_more(s) is None);
                                },
                            }
                        }
                        cur = np + 1;
                    } else if c == ']' {
                        proof {
                            assert(rr.len() > 0 && rr[0] == ']');
                            lemma_skip_skip(input@, np as int, 1);
                            assert(rr.drop_first() =~= rr.skip(1));
                            assert(p_defs_more(s) == Some((seq![d@], input@.skip(np + 1))));
                            assert(olds + seq![d@] =~= olds.push(d@));
                        }
                        return Some((acc, np + 1));
                    } else {
                        proof {
                            assert(rr.len() > 0 && rr[0] != ',' && rr[0] != ']');
                            assert(p_defs_more(s) is None);
                        }
                        return None;
                    }
                } else {
                    proof {
                        assert(rr.len() == 0);
                        assert(p_defs_more(s) is None);
                    }
                    return None;
                }
            },
        }
    }
}

/// Consumes one table definition set object.
fn parse_table(input: &Vec<char>, pos: usize) -> (r: Option<(TableDefinitions, usize)>)
    requires
        pos <= input@.len(),
    ensures
        match r {
            Some(p) => pos < p.1 <= input@.len() && p_table(input@.skip(pos as int)) == Some(
                (p.0@, input@.skip(p.1 as int)),
            ),
            None => p_table(input@.skip(pos as int)) is None,
        },
{
    proof {
        reveal(p_table);
        lemma_grammar_literals();
    }
    let p1 = match expect_lit(input, pos, "{\"name\":\"") {
        Some(p1) => p1,
        None => {
            return None;
        },
    };
    let (name, p2) = match parse_string(input, p1) {
        Some(p) => p,
        None => {
            return None;
        },
    };
    let p3 = match expect_lit(input, p2, "\",\"definitions\":[") {
        Some(p3) => p3,
        None => {
            return None;
        },
    };
    let (versions, p4) = match parse_defs(input, p3) {
        Some(p) => p,
        None => {
            return None;
        },
    };
    let p5 = match expect_lit(input, p4, "}") {
        Some(p5) => p5,
        None => {
            return None;
        },
    };
    Some((TableDefinitions { name, versions }, p5))
}

/// Consumes a possibly empty table list and its closing bracket.
fn parse_tables(input: &Vec<char>, pos: usize) -> (r: Option<(Vec<TableDefinitions>, usize)>)
    requires
        pos <= input@.len(),
    ensures
        match r {
            Some(p) => pos <= p.1 <= input@.len() && p_tables(input@.skip(pos as int)) == Some(
                (p.0@.map_values(|t: TableDefinitions| t@), input@.skip(p.1 as int)),
            ),
            None => p_tables(input@.skip(pos as int)) is None,
        },
{
    if pos < input.len() {
        let c0 = input[pos];
        if c0 == ']' {
            let empty_vec: Vec<TableDefinitions> = Vec::new();
            proof {
                let s = input@.skip(pos as int);
                assert(s.len() > 0 && s[0] == ']');
                lemma_skip_skip(input@, pos as int, 1);
                assert(empty_vec@.map_values(|t: TableDefinitions| t@)
                    =~= Seq::<TableSetView>::empty());
            }
            return Some((empty_vec, pos + 1));
        }
    }
    let mut acc: Vec<TableDefinitions> = Vec::new();
    let mut cur: usize = pos;
    proof {
        let s0 = input@.skip(pos as int);
        assert(s0.len() == 0 || s0[0] != ']');
        assert(p_tables(s0) == p_tables_more(s0));
        match p_tables_more(s0) {
            Some(q) => {
                assert(Seq::<TableSetView>::empty() + q.0 =~= q.0);
            },
            None => {},
        }
        assert(acc@.map_values(|t: TableDefinitions| t@) =~= Seq::<TableSetView>::empty());
    }
    loop
        invariant
            pos <= cur <= input@.len(),
            p_tables(input@.skip(pos as int)) == prepend_parsed(
                acc@.map_values(|t: TableDefinitions| t@),
                p_tables_more(input@.skip(cur as int)),
            ),
        decreases input@.len() - cur,
    {
        match parse_table(input, cur) {
            None => {
                return None;
            },
            Some((t, np)) => {
                let ghost olds = acc@.map_values(|tt: TableDefinitions| tt@);
                let ghost s = input@.skip(cur as int);
                let ghost rr = input@.skip(np as int);
                proof {
                    assert(rr.len() < s.len());
                }
                acc.push(t);
                proof {
                    assert(acc@.map_values(|tt: TableDefinitions| tt@) =~= olds.push(t@));
                }
                if np < input.len() {
                    let c = input[np];
                    if c == ',' {
                        proof {
                            assert(rr.len() > 0 && rr[0] == ',');
                            lemma_skip_skip(input@, np as int, 1);
                            assert(rr.drop_first() =~= rr.skip(1));
                            match p_tables_more(input@.skip(np + 1)) {
                                Some(q) => {
                                    assert(p_tables_more(s) == Some((seq![t@] + q.0, q.1)));
                                    assert(olds + (seq![t@] + q.0) =~= olds.push(t@) + q.0);
                                },
                                None => {
                                    assert(p_tables_more(s) is None);
                                },
                            }
                        }
                        cur = np + 1;
                    } else if c == ']' {
                        proof {
                            assert(rr.len() > 0 && rr[0] == ']');
                            lemma_skip_skip(input@, np as int, 1);
                            assert(rr.drop_first() =~= rr.skip(1));
                            assert(p_tables_more(s) == Some((seq![t@], input@.skip(np + 1))));
                            assert(olds + seq![t@] =~= olds.push(t@));
                        }
                        return Some((acc, np + 1));
                    } else {
                        proof {
                            assert(rr.len() > 0 && rr[0] != ',' && rr[0] != ']');
                            assert(p_tables_more(s) is None);
                        }
                        return None;
                    }
                } else {
                    proof {
                        assert(rr.len() == 0);
                        assert(p_tables_more(s) is None);
                    }
                    return None;
                }
            },
        }
    }
}

impl Schema {
    /// Parses a whole document back into a registry.  Succeeds exactly on
    /// the documents that `render` produces, and then returns the rendered
    /// registry.
    #[verifier::rlimit(80)]
    #[verifier::spinoff_prover]
    pub fn parse(input: &Vec<char>) -> (r: Result<Schema, DecodeError>)
        ensures
            match r {
                Ok(s) => spec_parse_document(input@) == Some(s@),
                Err(_) => spec_parse_document(input@) is None,
            },
    {
        proof {
            lemma_grammar_literals();
            assert(input@.skip(0) =~= input@);
        }
        let p1 = match expect_lit(input, 0, "{\"game\":\"") {
            Some(p1) => p1,
            None => {
                return Err(DecodeError::Malformed);
            },
        };
        let (game, p2) = match parse_string(input, p1) {
            Some(p) => p,
            None => {
                return Err(DecodeError::Malformed);
            },
        };
        let p3 = match expect_lit(input, p2, "\",\"version\":") {
            Some(p3) => p3,
            None => {
                return Err(DecodeError::Malformed);
            },
        };
        let (version, p4) = match parse_u32(input, p3) {
            Some(p) => p,
            None => {
                return Err(DecodeError::Malformed);
            },
        };
        let p5 = match expect_lit(input, p4, ",\"tables\":[") {
            Some(p5) => p5,
            None => {
                return Err(DecodeError::Malformed);
            },
        };
        let (tables_definitions, p6) = match parse_tables(input, p5) {
            Some(p) => p,
            None => {
                return Err(DecodeError::Malformed);
            },
        };
        let p7 = match expect_lit(input, p6, "}") {
            Some(p7) => p7,
            None => {
                return Err(DecodeError::Malformed);
            },
        };
        if p7 != input.len() {
            return Err(DecodeError::Malformed);
        }
        Ok(Schema { game, version, tables_definitions })
    }
}

} // verus!
