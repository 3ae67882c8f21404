//! The inbound request grammar: a JSON object with exactly one member,
//! `"name"`, whose value is a string — the subdomain label to create.
//! Anything else (other JSON values, another key, a non-string value,
//! trailing text) is rejected as a client error.

use vstd::prelude::*;

use crate::json::escape_spec;
use crate::json::lemma_parse_escaped;
use crate::json::parse_string_body;
use crate::json::parse_string_spec;
use crate::json::skip_ws;
use crate::json::skip_ws_spec;
use crate::text::chars_to_string;
use crate::text::str_to_chars;

verus! {

/// The name carried by a well-formed inbound body, or `None` if the body is
/// not a JSON object of the single string member `"name"`.
pub open spec fn parse_request_spec(s: Seq<char>) -> Option<Seq<char>> {
    let i = skip_ws_spec(s, 0);
    if !(i < s.len() && s[i] == '{') {
        None
    } else {
        let j = skip_ws_spec(s, i + 1);
        if !(j < s.len() && s[j] == '"') {
            None
        } else {
            match parse_string_spec(s, j + 1) {
                None => None,
                Some((key, k)) => if key != "name"@ {
                    None
                } else {
                    let l = skip_ws_spec(s, k);
                    if !(l < s.len() && s[l] == ':') {
                        None
                    } else {
                        let m = skip_ws_spec(s, l + 1);
                        if !(m < s.len() && s[m] == '"') {
                            None
                        } else {
                            match parse_string_spec(s, m + 1) {
                                None => None,
                                Some((val, p)) => {
                                    let q = skip_ws_spec(s, p);
                                    if !(q < s.len() && s[q] == '}') {
                                        None
                                    } else {
                                        if skip_ws_spec(s, q + 1) == s.len() {
                                            Some(val)
                                        } else {
                                            None
                                        }
                                    }
                                },
                            }
                        }
                    }
                },
            }
        }
    }
}

/// Parses an inbound body, returning the requested name, or `None` on any
/// body [`parse_request_spec`] rejects.
pub fn parse_request(body: &str) -> (r: Option<String>)
    ensures
        match r {
            Some(n) => parse_request_spec(body@) == Some(n@),
            None => parse_request_spec(body@) is None,
        },
{
    let v = str_to_chars(body);
    let i = skip_ws(&v, 0);
    if !(i < v.len() && v[i] == '{') {
        return None;
    }
    let j = skip_ws(&v, i + 1);
    if !(j < v.len() && v[j] == '"') {
        return None;
    }
    let (key, k) = match parse_string_body(&v, j + 1) {
        Some(p) => p,
        None => {
            return None;
        },
    };
    if !(key.len() == 4 && key[0] == 'n' && key[1] == 'a' && key[2] == 'm' && key[3] == 'e') {
        proof {
            reveal_strlit("name");
            assert(key@ != "name"@);
        }
        return None;
    }
    proof {
        reveal_strlit("name");
        assert(key@ =~= "name"@);
    }
    let l = skip_ws(&v, k);
    if !(l < v.len() && v[l] == ':') {
        return None;
    }
    let m = skip_ws(&v, l + 1);
    if !(m < v.len() && v[m] == '"') {
        return None;
    }
    let (val, p) = match parse_string_body(&v, m + 1) {
        Some(p) => p,
        None => {
            return None;
        },
    };
    let q = skip_ws(&v, p);
    if !(q < v.len() && v[q] == '}') {
        return None;
    }
    if skip_ws(&v, q + 1) != v.len() {
        return None;
    }
    Some(chars_to_string(&val))
}

/// The canonical inbound body naming `n`.
pub open spec fn request_body_spec(n: Seq<char>) -> Seq<char> {
    "{\"name\":\""@ + escape_spec(n) + "\"}"@
}

/// A character a JSON string literal holds as itself, with no escape.
pub open spec fn is_plain_char(c: char) -> bool {
    c != '"' && c != '\\' && c as u32 >= 0x20
}

pub proof fn lemma_escape_plain(v: Seq<char>)
    requires
        forall|k: int| 0 <= k < v.len() ==> is_plain_char(v[k]),
    ensures
        escape_spec(v) == v,
    decreases v.len(),
{
    if v.len() == 0 {
        assert(escape_spec(v) =~= v);
    } else {
        lemma_escape_plain(v.drop_first());
        assert(seq![v[0]] + v.drop_first() =~= v);
    }
}

/// Encoding a name into the canonical inbound body and parsing that body
/// yields the name back: the inbound codec round-trips.
pub proof fn lemma_request_round_trip(n: Seq<char>)
    ensures
        parse_request_spec(request_body_spec(n)) == Some(n),
{
    reveal_strlit("{\"name\":\"");
    reveal_strlit("\"}");
    reveal_strlit("name");
    let pre = "{\"name\":\""@;
    let suf = "\"}"@;
    let e = escape_spec(n);
    let s = request_body_spec(n);
    assert(s.len() == 9 + e.len() + 2);
    assert(s[0] == '{' && s[1] == '"' && s[2] == 'n' && s[3] == 'a' && s[4] == 'm' && s[5] == 'e'
        && s[6] == '"' && s[7] == ':' && s[8] == '"');
    assert(skip_ws_spec(s, 0) == 0);
    assert(skip_ws_spec(s, 1) == 1);
    let name = "name"@;
    assert(name.len() == 4);
    assert forall|k: int| 0 <= k < name.len() implies is_plain_char(name[k]) by {}
    lemma_escape_plain(name);
    assert(s.skip(2) =~= escape_spec(name) + seq!['"'] + s.skip(7));
    lemma_parse_escaped(s, 2, name, s.skip(7));
    assert(parse_string_spec(s, 2) == Some((name, 7int)));
    assert(skip_ws_spec(s, 7) == 7);
    assert(skip_ws_spec(s, 8) == 8);
    let close = (9 + e.len()) as int;
    assert(s[close] == '"' && s[close + 1] == '}');
    assert(s.skip(9) =~= e + seq!['"'] + s.skip(close + 1));
    assert(s.skip(close + 1) =~= seq!['}']);
    lemma_parse_escaped(s, 9, n, seq!['}']);
    assert(parse_string_spec(s, 9) == Some((n, close + 1)));
    assert(skip_ws_spec(s, close + 1) == close + 1);
    assert(skip_ws_spec(s, close + 2) == close + 2);
    assert(close + 2 == s.len());
}

} // verus!
