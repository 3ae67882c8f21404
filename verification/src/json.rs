//! A verified codec for JSON strings: escaping a character sequence into
//! JSON string-literal form, and parsing such a literal back.  The escaper
//! produces exactly the escapes a standard JSON serializer emits (`\"`,
//! `\\`, `\b`, `\t`, `\n`, `\f`, `\r`, and `\u00XX` for other control
//! characters); the parser additionally accepts `\/` and arbitrary `\uXXXX`
//! escapes, including surrogate pairs.

use vstd::prelude::*;

verus! {

/// The four characters JSON treats as insignificant whitespace.
pub open spec fn is_json_ws(c: char) -> bool {
    c == ' ' || c == '\t' || c == '\n' || c == '\r'
}

/// The first position at or after `i` holding a non-whitespace character
/// (or the end of `s`).
pub open spec fn skip_ws_spec(s: Seq<char>, i: int) -> int
    decreases s.len() - i when 0 <= i <= s.len()
{
    if i < s.len() && is_json_ws(s[i]) {
        skip_ws_spec(s, i + 1)
    } else {
        i
    }
}

/// Advances an index over JSON whitespace.
pub fn skip_ws(v: &Vec<char>, start: usize) -> (r: usize)
    requires
        start <= v.len(),
    ensures
        r as int == skip_ws_spec(v@, start as int),
        start <= r <= v.len(),
{
    let mut i: usize = start;
    while i < v.len() && is_json_ws_exec(v[i])
        invariant
            start <= i <= v.len(),
            skip_ws_spec(v@, start as int) == skip_ws_spec(v@, i as int),
        decreases v.len() - i,
    {
        i = i + 1;
    }
    i
}

/// Decides [`is_json_ws`].
pub fn is_json_ws_exec(c: char) -> (r: bool)
    ensures
        r == is_json_ws(c),
{
    c == ' ' || c == '\t' || c == '\n' || c == '\r'
}

/// Whether `c` is an ASCII hexadecimal digit.
pub open spec fn is_hex_digit(c: char) -> bool {
    (0x30 <= c as u32 && c as u32 <= 0x39) || (0x61 <= c as u32 && c as u32 <= 0x66) || (0x41
        <= c as u32 && c as u32 <= 0x46)
}

/// The numeric value of a hexadecimal digit.
pub open spec fn hex_digit_val(c: char) -> int {
    if 0x30 <= c as u32 && c as u32 <= 0x39 {
        c as u32 - 0x30
    } else if 0x61 <= c as u32 && c as u32 <= 0x66 {
        c as u32 - 0x57
    } else {
        c as u32 - 0x37
    }
}

/// The numeric value of a hexadecimal digit, or `None` for any other
/// character.
pub fn hex_val(c: char) -> (r: Option<u32>)
    ensures
        match r {
            Some(u) => is_hex_digit(c) && u as int == hex_digit_val(c) && u < 16,
            None => !is_hex_digit(c),
        },
{
    let u: u32 = c as u32;
    if 0x30 <= u && u <= 0x39 {
        Some(u - 0x30)
    } else if 0x61 <= u && u <= 0x66 {
        Some(u - 0x57)
    } else if 0x41 <= u && u <= 0x46 {
        Some(u - 0x37)
    } else {
        None
    }
}

/// Whether the four characters at `i` are hexadecimal digits.
pub open spec fn hex4_ok(s: Seq<char>, i: int) -> bool {
    &&& is_hex_digit(s[i])
    &&& is_hex_digit(s[i + 1])
    &&& is_hex_digit(s[i + 2])
    &&& is_hex_digit(s[i + 3])
}

/// The value of the four hexadecimal digits at `i`.
pub open spec fn hex4_val(s: Seq<char>, i: int) -> int {
    hex_digit_val(s[i]) * 0x1000 + hex_digit_val(s[i + 1]) * 0x100 + hex_digit_val(s[i + 2]) * 0x10
        + hex_digit_val(s[i + 3])
}

/// Reads four hexadecimal digits as one value.
pub fn hex4(v: &Vec<char>, i: usize) -> (r: Option<u32>)
    requires
        i + 4 <= v.len(),
    ensures
        match r {
            Some(u) => hex4_ok(v@, i as int) && u as int == hex4_val(v@, i as int) && u < 0x10000,
            None => !hex4_ok(v@, i as int),
        },
{
    let d0 = match hex_val(v[i]) {
        Some(d) => d,
        None => {
            return None;
        },
    };
    let d1 = match hex_val(v[i + 1]) {
        Some(d) => d,
        None => {
            return None;
        },
    };
    let d2 = match hex_val(v[i + 2]) {
        Some(d) => d,
        None => {
            return None;
        },
    };
    let d3 = match hex_val(v[i + 3]) {
        Some(d) => d,
        None => {
            return None;
        },
    };
    Some(d0 * 0x1000 + d1 * 0x100 + d2 * 0x10 + d3)
}

/// Whether `u` is a Unicode scalar value, the values a `char` can hold.
pub open spec fn is_unicode_scalar(u: u32) -> bool {
    u < 0xd800 || (0xe000 <= u && u <= 0x10ffff)
}

/// Relies on `char::from_u32`: it returns `Some` exactly on Unicode scalar
/// values (not surrogates, nothing above U+10FFFF), and the returned
/// character has the given code-point value.
#[verifier::external_body]
pub fn char_from_u32(u: u32) -> (r: Option<char>)
    ensures
        r is Some <==> is_unicode_scalar(u),
        match r {
            Some(c) => c as u32 == u,
            None => true,
        },
{
    char::from_u32(u)
}

/// The characters reachable through a single-character escape.
pub open spec fn is_simple_escape(e: char) -> bool {
    e == '"' || e == '\\' || e == '/' || e == 'b' || e == 'f' || e == 'n' || e == 'r' || e == 't'
}

/// The character a single-character escape stands for.
pub open spec fn escape_code(e: char) -> char {
    if e == 'b' {
        '\u{8}'
    } else if e == 'f' {
        '\u{c}'
    } else if e == 'n' {
        '\n'
    } else if e == 'r' {
        '\r'
    } else if e == 't' {
        '\t'
    } else {
        e
    }
}

/// Decides [`is_simple_escape`].
pub fn is_simple_escape_exec(e: char) -> (r: bool)
    ensures
        r == is_simple_escape(e),
{
    e == '"' || e == '\\' || e == '/' || e == 'b' || e == 'f' || e == 'n' || e == 'r' || e == 't'
}

/// Computes [`escape_code`].
pub fn escape_code_exec(e: char) -> (r: char)
    ensures
        r == escape_code(e),
{
    if e == 'b' {
        '\u{8}'
    } else if e == 'f' {
        '\u{c}'
    } else if e == 'n' {
        '\n'
    } else if e == 'r' {
        '\r'
    } else if e == 't' {
        '\t'
    } else {
        e
    }
}

/// Parses the body of a JSON string literal from position `i` (just after
/// the opening quote) to its closing quote.  Yields the decoded characters
/// and the position just after the closing quote, or `None` if no
/// well-formed literal starts there.
pub open spec fn parse_string_spec(s: Seq<char>, i: int) -> Option<(Seq<char>, int)>
    decreases s.len() - i when 0 <= i <= s.len()
{
    if i >= s.len() {
        None
    } else if s[i] == '"' {
        Some((Seq::empty(), i + 1))
    } else if s[i] == '\\' {
        if i + 1 >= s.len() {
            None
        } else {
            let e = s[i + 1];
            if is_simple_escape(e) {
                match parse_string_spec(s, i + 2) {
                    Some((rest, k)) => Some((seq![escape_code(e)] + rest, k)),
                    None => None,
                }
            } else if e == 'u' {
                if i + 6 > s.len() || !hex4_ok(s, i + 2) {
                    None
                } else {
                    let u = hex4_val(s, i + 2);
                    if 0xd800 <= u && u < 0xdc00 {
                        if i + 12 > s.len() || s[i + 6] != '\\' || s[i + 7] != 'u' || !hex4_ok(
                            s,
                            i + 8,
                        ) {
                            None
                        } else {
                            let lo = hex4_val(s, i + 8);
                            if 0xdc00 <= lo && lo < 0xe000 {
                                match parse_string_spec(s, i + 12) {
                                    Some(
                                        (rest, k),
                                    ) => Some(
                                        (
                                            seq![
                                                ((0x10000 + (u - 0xd800) * 0x400 + (lo - 0xdc00))
                                                    as u32) as char
                                            ] + rest,
                                            k,
                                        ),
                                    ),
                                    None => None,
                                }
                            } else {
                                None
                            }
                        }
                    } else if 0xdc00 <= u && u < 0xe000 {
                        None
                    } else {
                        match parse_string_spec(s, i + 6) {
                            Some((rest, k)) => Some((seq![(u as u32) as char] + rest, k)),
                            None => None,
                        }
                    }
                }
            } else {
                None
            }
        }
    } else if (s[i] as u32) < 0x20 {
        None
    } else {
        match parse_string_spec(s, i + 1) {
            Some((rest, k)) => Some((seq![s[i]] + rest, k)),
            None => None,
        }
    }
}

/// Composes already-decoded characters with the outcome of parsing the
/// remainder of a string literal.
pub open spec fn ps_compose(a: Seq<char>, o: Option<(Seq<char>, int)>) -> Option<
    (Seq<char>, int),
> {
    match o {
        Some((rest, k)) => Some((a + rest, k)),
        None => None,
    }
}

pub proof fn lemma_parse_string_bounds(s: Seq<char>, i: int)
    requires
        0 <= i <= s.len(),
    ensures
        match parse_string_spec(s, i) {
            Some((rest, k)) => i < k <= s.len(),
            None => true,
        },
    decreases s.len() - i,
{
    if i < s.len() {
        if s[i] == '\\' && i + 1 < s.len() {
            let e = s[i + 1];
            if is_simple_escape(e) {
                lemma_parse_string_bounds(s, i + 2);
            } else if e == 'u' && i + 6 <= s.len() && hex4_ok(s, i + 2) {
                let u = hex4_val(s, i + 2);
                if 0xd800 <= u && u < 0xdc00 {
                    if i + 12 <= s.len() {
                        lemma_parse_string_bounds(s, i + 12);
                    }
                } else {
                    lemma_parse_string_bounds(s, i + 6);
                }
            }
        } else if s[i] != '"' && s[i] != '\\' {
            lemma_parse_string_bounds(s, i + 1);
        }
    }
}

/// Parses the body of a JSON string literal, starting just after the
/// opening quote.
pub fn parse_string_body(v: &Vec<char>, start: usize) -> (r: Option<(Vec<char>, usize)>)
    requires
        start <= v.len(),
    ensures
        match r {
            Some(p) => start <= p.1 <= v.len() && parse_string_spec(v@, start as int) == Some(
                (p.0@, p.1 as int),
            ),
            None => parse_string_spec(v@, start as int) is None,
        },
{
    let mut acc: Vec<char> = Vec::new();
    let mut i: usize = start;
    loop
        invariant
            start <= i <= v.len(),
            ps_compose(acc@, parse_string_spec(v@, i as int)) == parse_string_spec(
                v@,
                start as int,
            ),
        decreases v.len() - i,
    {
        if i >= v.len() {
            return None;
        }
        let c = v[i];
        if c == '"' {
            proof {
                assert(acc@ + Seq::<char>::empty() =~= acc@);
                lemma_parse_string_bounds(v@, start as int);
            }
            return Some((acc, i + 1));
        }
        let ghost i0 = i as int;
        let ghost acc0 = acc@;
        if c == '\\' {
            if v.len() - i < 2 {
                return None;
            }
            let e = v[i + 1];
            if e == 'u' {
                if v.len() - i < 6 {
                    return None;
                }
                let u = match hex4(v, i + 2) {
                    Some(u) => u,
                    None => {
                        return None;
                    },
                };
                if 0xd800 <= u && u < 0xdc00 {
                    if v.len() - i < 12 {
                        return None;
                    }
                    if !(v[i + 6] == '\\' && v[i + 7] == 'u') {
                        return None;
                    }
                    let lo = match hex4(v, i + 8) {
                        Some(lo) => lo,
                        None => {
                            return None;
                        },
                    };
                    if !(0xdc00 <= lo && lo < 0xe000) {
                        return None;
                    }
                    let code: u32 = 0x10000 + (u - 0xd800) * 0x400 + (lo - 0xdc00);
                    let c2 = match char_from_u32(code) {
                        Some(c2) => c2,
                        None => {
                            proof {
                                assert(is_unicode_scalar(code));
                            }
                            return None;
                        },
                    };
                    acc.push(c2);
                    i = i + 12;
                    proof {
                        vstd::utf8::char_u32_cast(c2, code);
                        lemma_step(v@, i0, acc0, seq![c2], i as int);
                    }
                } else if 0xdc00 <= u && u < 0xe000 {
                    return None;
                } else {
                    let c2 = match char_from_u32(u) {
                        Some(c2) => c2,
                        None => {
                            proof {
                                assert(is_unicode_scalar(u));
                            }
                            return None;
                        },
                    };
                    acc.push(c2);
                    i = i + 6;
                    proof {
                        vstd::utf8::char_u32_cast(c2, u);
                        lemma_step(v@, i0, acc0, seq![c2], i as int);
                    }
                }
            } else if is_simple_escape_exec(e) {
                acc.push(escape_code_exec(e));
                i = i + 2;
                proof {
                    lemma_step(v@, i0, acc0, seq![escape_code(e)], i as int);
                }
            } else {
                return None;
            }
        } else if (c as u32) < 0x20 {
            return None;
        } else {
            acc.push(c);
            i = i + 1;
            proof {
                lemma_step(v@, i0, acc0, seq![c], i as int);
            }
        }
    }
}

/// One decoding step preserves the relation between what has been decoded
/// and what remains.
proof fn lemma_step(s: Seq<char>, i0: int, acc0: Seq<char>, piece: Seq<char>, i1: int)
    requires
        parse_string_spec(s, i0) == ps_compose(piece, parse_string_spec(s, i1)),
    ensures
        ps_compose(acc0, parse_string_spec(s, i0)) == ps_compose(
            acc0 + piece,
            parse_string_spec(s, i1),
        ),
{
    match parse_string_spec(s, i1) {
        Some((rest, k)) => {
            assert(acc0 + (piece + rest) =~= (acc0 + piece) + rest);
        },
        None => {},
    }
}

/// The JSON string-literal encoding of one character: the escapes a
/// standard serializer emits, other characters unchanged.
pub open spec fn escape_char_spec(c: char) -> Seq<char> {
    if c == '"' {
        seq!['\\', '"']
    } else if c == '\\' {
        seq!['\\', '\\']
    } else if c as u32 == 0x08 {
        seq!['\\', 'b']
    } else if c == '\t' {
        seq!['\\', 't']
    } else if c == '\n' {
        seq!['\\', 'n']
    } else if c as u32 == 0x0c {
        seq!['\\', 'f']
    } else if c == '\r' {
        seq!['\\', 'r']
    } else if (c as u32) < 0x20 {
        seq!['\\', 'u', '0', '0', hex_digit_char((c as u32) as int / 16), hex_digit_char((c as u32) as int % 16)]
    } else {
        seq![c]
    }
}

/// The JSON string-literal encoding of a character sequence.
pub open spec fn escape_spec(s: Seq<char>) -> Seq<char>
    decreases s.len(),
{
    if s.len() == 0 {
        Seq::empty()
    } else {
        escape_char_spec(s[0]) + escape_spec(s.drop_first())
    }
}

/// The lowercase hexadecimal digit for a value below 16.
pub open spec fn hex_digit_char(d: int) -> char {
    if d < 10 {
        ((0x30 + d) as u32) as char
    } else {
        ((0x57 + d) as u32) as char
    }
}

/// Computes [`hex_digit_char`].
pub fn hex_digit_char_exec(d: u32) -> (r: char)
    requires
        d < 16,
    ensures
        r == hex_digit_char(d as int),
{
    let u: u32 = if d < 10 {
        0x30 + d
    } else {
        0x57 + d
    };
    let r = match char_from_u32(u) {
        Some(c) => c,
        None => ' ',
    };
    proof {
        vstd::utf8::char_u32_cast(r, u);
    }
    r
}

pub proof fn lemma_escape_snoc(s: Seq<char>, c: char)
    ensures
        escape_spec(s.push(c)) == escape_spec(s) + escape_char_spec(c),
    decreases s.len(),
{
    if s.len() == 0 {
        assert(s.push(c)[0] == c);
        assert(s.push(c).drop_first() =~= Seq::<char>::empty());
        assert(escape_spec(Seq::<char>::empty()) == Seq::<char>::empty());
        assert(escape_char_spec(c) + Seq::<char>::empty() =~= escape_char_spec(c));
        assert(Seq::<char>::empty() + escape_char_spec(c) =~= escape_char_spec(c));
    } else {
        assert(s.push(c)[0] == s[0]);
        assert(s.push(c).drop_first() =~= s.drop_first().push(c));
        lemma_escape_snoc(s.drop_first(), c);
        assert(escape_char_spec(s[0]) + (escape_spec(s.drop_first()) + escape_char_spec(c)) =~= (
        escape_char_spec(s[0]) + escape_spec(s.drop_first())) + escape_char_spec(c));
    }
}

/// Encodes the characters of `v` as the body of a JSON string literal.
pub fn escape_chars(v: &Vec<char>) -> (r: Vec<char>)
    ensures
        r@ == escape_spec(v@),
{
    let mut r: Vec<char> = Vec::new();
    let mut i: usize = 0;
    while i < v.len()
        invariant
            0 <= i <= v.len(),
            r@ == escape_spec(v@.subrange(0, i as int)),
        decreases v.len() - i,
    {
        let c = v[i];
        let u: u32 = c as u32;
        if c == '"' {
            r.push('\\');
            r.push('"');
        } else if c == '\\' {
            r.push('\\');
            r.push('\\');
        } else if u == 0x08 {
            r.push('\\');
            r.push('b');
        } else if c == '\t' {
            r.push('\\');
            r.push('t');
        } else if c == '\n' {
            r.push('\\');
            r.push('n');
        } else if u == 0x0c {
            r.push('\\');
            r.push('f');
        } else if c == '\r' {
            r.push('\\');
            r.push('r');
        } else if u < 0x20 {
            r.push('\\');
            r.push('u');
            r.push('0');
            r.push('0');
            r.push(hex_digit_char_exec(u / 16));
            r.push(hex_digit_char_exec(u % 16));
        } else {
            r.push(c);
        }
        proof {
            lemma_escape_snoc(v@.subrange(0, i as int), c);
            assert(v@.subrange(0, i as int).push(c) =~= v@.subrange(0, i + 1));
            assert(r@ =~= escape_spec(v@.subrange(0, i as int)) + escape_char_spec(c));
        }
        i = i + 1;
    }
    proof {
        assert(v@.subrange(0, v@.len() as int) =~= v@);
    }
    r
}


proof fn lemma_hex_digit_char(d: int)
    requires
        0 <= d < 16,
    ensures
        is_hex_digit(hex_digit_char(d)),
        hex_digit_val(hex_digit_char(d)) == d,
{
    if d < 10 {
        assert(hex_digit_char(d) as u32 == 0x30 + d);
    } else {
        assert(hex_digit_char(d) as u32 == 0x57 + d);
    }
}

proof fn lemma_concat_at(s: Seq<char>, i: int, a: Seq<char>, b: Seq<char>)
    requires
        0 <= i <= s.len(),
        s.skip(i) == a + b,
    ensures
        i + a.len() + b.len() == s.len(),
        forall|k: int| 0 <= k < a.len() ==> s[i + k] == a[k],
        s.skip(i + a.len()) == b,
{
    assert(s.skip(i).len() == s.len() - i);
    assert forall|k: int| 0 <= k < a.len() implies s[i + k] == a[k] by {
        assert(s.skip(i)[k] == s[i + k]);
        assert((a + b)[k] == a[k]);
    }
    assert(s.skip(i + a.len()) =~= b) by {
        assert forall|k: int| 0 <= k < b.len() implies s.skip(i + a.len())[k] == b[k] by {
            assert(s.skip(i + a.len())[k] == s[i + a.len() + k]);
            assert(s.skip(i)[a.len() + k] == s[i + a.len() + k]);
            assert((a + b)[a.len() + k] == b[k]);
        }
    }
}

/// Parsing an encoded string out of its surrounding text yields exactly the
/// encoded value: from position `i`, the text holds the encoding of `v`, a
/// closing quote, and whatever follows, and the parser returns `v` itself and
/// stops at the closing quote.
pub proof fn lemma_parse_escaped(s: Seq<char>, i: int, v: Seq<char>, rest: Seq<char>)
    requires
        0 <= i <= s.len(),
        s.skip(i) == escape_spec(v) + seq!['"'] + rest,
    ensures
        parse_string_spec(s, i) == Some((v, i + escape_spec(v).len() + 1)),
    decreases v.len(),
{
    if v.len() == 0 {
        assert(escape_spec(v) + seq!['"'] + rest =~= seq!['"'] + rest);
        lemma_concat_at(s, i, seq!['"'], rest);
        assert((seq!['"'])[0] == '"');
        assert(s[i + 0] == (seq!['"'])[0]);
        assert(s[i] == '"');
        assert(parse_string_spec(s, i) == Some((Seq::<char>::empty(), i + 1)));
        assert(Seq::<char>::empty() =~= v);
    } else {
        let c = v[0];
        let cu = c as u32;
        let ec = escape_char_spec(c);
        let v1 = v.drop_first();
        assert(escape_spec(v) == ec + escape_spec(v1));
        assert(v =~= seq![c] + v1);
        assert(escape_spec(v) + seq!['"'] + rest =~= ec + (escape_spec(v1) + seq!['"'] + rest));
        lemma_concat_at(s, i, ec, escape_spec(v1) + seq!['"'] + rest);
        lemma_parse_escaped(s, i + ec.len(), v1, rest);
        let tail = parse_string_spec(s, i + ec.len());
        assert(tail == Some((v1, i + ec.len() + escape_spec(v1).len() + 1)));
        if c == '"' || c == '\\' {
            assert(s[i] == '\\' && s[i + 1] == c);
            assert(escape_code(c) == c);
        } else if cu == 0x08 {
            assert(s[i] == '\\' && s[i + 1] == 'b');
            vstd::utf8::char_u32_cast(c, cu);
            vstd::utf8::char_u32_cast('\u{8}', cu);
            assert(seq![escape_code('b')] + v1 =~= v);
        } else if c == '\t' {
            assert(s[i] == '\\' && s[i + 1] == 't');
            assert(seq![escape_code('t')] + v1 =~= v);
        } else if c == '\n' {
            assert(s[i] == '\\' && s[i + 1] == 'n');
            assert(seq![escape_code('n')] + v1 =~= v);
        } else if cu == 0x0c {
            assert(s[i] == '\\' && s[i + 1] == 'f');
            vstd::utf8::char_u32_cast(c, cu);
            vstd::utf8::char_u32_cast('\u{c}', cu);
            assert(seq![escape_code('f')] + v1 =~= v);
        } else if c == '\r' {
            assert(s[i] == '\\' && s[i + 1] == 'r');
            assert(seq![escape_code('r')] + v1 =~= v);
        } else if cu < 0x20 {
            assert(s[i] == '\\' && s[i + 1] == 'u' && s[i + 2] == '0' && s[i + 3] == '0');
            assert(s[i + 4] == hex_digit_char(cu as int / 16));
            assert(s[i + 5] == hex_digit_char(cu as int % 16));
            lemma_hex_digit_char(cu as int / 16);
            lemma_hex_digit_char(cu as int % 16);
            assert(hex_digit_val('0') == 0);
            assert(hex4_ok(s, i + 2));
            assert(hex4_val(s, i + 2) == cu as int);
            assert(!is_simple_escape('u'));
            vstd::utf8::char_u32_cast(c, cu);
            assert(((cu as int) as u32) as char == c);
            assert(seq![c] + v1 =~= v);
        } else {
            assert(ec =~= seq![c]);
            assert(s[i] == c);
            assert(seq![c] + v1 =~= v);
        }
        assert(escape_spec(v).len() == ec.len() + escape_spec(v1).len());
    }
}

/// Decoding an encoded string yields exactly the original value: the codec
/// round-trips, so a value placed in a JSON string field comes back
/// unchanged, neither doubled nor re-encoded.
pub proof fn lemma_escape_round_trip(v: Seq<char>, rest: Seq<char>)
    ensures
        parse_string_spec(escape_spec(v) + seq!['"'] + rest, 0) == Some(
            (v, escape_spec(v).len() as int + 1),
        ),
{
    let s = escape_spec(v) + seq!['"'] + rest;
    assert(s.skip(0) =~= s);
    lemma_parse_escaped(s, 0, v, rest);
}

} // verus!
