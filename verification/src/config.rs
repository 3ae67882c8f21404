//! Startup configuration: the five secrets read from the secrets directory,
//! the header values derived from them, and the process's network
//! parameters.  Startup is all-or-nothing: a missing or blank secret, an
//! unencodable header value, or an unparsable numeric parameter yields an
//! error that the bootstrap turns into a fatal exit before the listener
//! binds.

use vstd::prelude::*;

use crate::text::chars_to_string;
use crate::text::str_to_chars;
use crate::text::trim_chars;
use crate::text::trim_spec;

verus! {

/// The five secrets the service needs, each stored in a file of the same
/// name inside the secrets directory.
#[derive(Clone, Copy, Debug, PartialEq, Eq, Structural)]
pub enum SecretName {
    AuthKey,
    Token,
    Content,
    ZoneName,
    ZoneId,
}

/// Why startup configuration was rejected.
#[derive(Clone, Copy, Debug, PartialEq, Eq, Structural)]
pub enum ConfigError {
    /// The named secret file is missing or unreadable.
    MissingSecret(SecretName),
    /// The named secret file holds only whitespace.
    EmptySecret(SecretName),
    /// The authentication key cannot be encoded as a header value.
    InvalidAuthKey,
    /// The bearer token cannot be encoded as a header value.
    InvalidToken,
    /// The configured port is not a decimal number that fits.
    BadPort,
    /// The configured worker count is not a decimal number that fits.
    BadWorkers,
}

/// The validated startup secrets, immutable for the life of the process.
pub struct Config {
    pub auth_key: String,
    pub token: String,
    pub content: String,
    pub zone_name: String,
    pub zone_id: String,
}

/// Whether a raw secret is present and non-blank once trimmed.
pub open spec fn secret_good(o: Option<String>) -> bool {
    o is Some && trim_spec(o.unwrap()@).len() > 0
}

/// The error reported for the first secret, in reading order, that is
/// missing or blank.
pub open spec fn first_secret_error(
    auth_key: Option<String>,
    token: Option<String>,
    content: Option<String>,
    zone_name: Option<String>,
    zone_id: Option<String>,
) -> ConfigError {
    if !secret_good(auth_key) {
        secret_error(auth_key, SecretName::AuthKey)
    } else if !secret_good(token) {
        secret_error(token, SecretName::Token)
    } else if !secret_good(content) {
        secret_error(content, SecretName::Content)
    } else if !secret_good(zone_name) {
        secret_error(zone_name, SecretName::ZoneName)
    } else {
        secret_error(zone_id, SecretName::ZoneId)
    }
}

/// The error one bad secret yields.
pub open spec fn secret_error(o: Option<String>, which: SecretName) -> ConfigError {
    if o is None {
        ConfigError::MissingSecret(which)
    } else {
        ConfigError::EmptySecret(which)
    }
}

impl Config {
    /// Every secret is non-empty.
    pub open spec fn wf(&self) -> bool {
        &&& self.auth_key@.len() > 0
        &&& self.token@.len() > 0
        &&& self.content@.len() > 0
        &&& self.zone_name@.len() > 0
        &&& self.zone_id@.len() > 0
    }

    /// Validates the five raw secrets, in the order they are read:
    /// each must be present, and non-empty once surrounding whitespace is
    /// trimmed.  On success every stored secret is the trimmed text.
    pub fn from_secrets(
        auth_key: Option<String>,
        token: Option<String>,
        content: Option<String>,
        zone_name: Option<String>,
        zone_id: Option<String>,
    ) -> (r: Result<Config, ConfigError>)
        ensures
            r is Ok <==> secret_good(auth_key) && secret_good(token) && secret_good(content)
                && secret_good(zone_name) && secret_good(zone_id),
            match r {
                Ok(c) => {
                    &&& c.auth_key@ == trim_spec(auth_key.unwrap()@)
                    &&& c.token@ == trim_spec(token.unwrap()@)
                    &&& c.content@ == trim_spec(content.unwrap()@)
                    &&& c.zone_name@ == trim_spec(zone_name.unwrap()@)
                    &&& c.zone_id@ == trim_spec(zone_id.unwrap()@)
                    &&& c.wf()
                },
                Err(e) => e == first_secret_error(auth_key, token, content, zone_name, zone_id),
            },
    {
        let auth_key = load_secret(auth_key, SecretName::AuthKey)?;
        let token = load_secret(token, SecretName::Token)?;
        let content = load_secret(content, SecretName::Content)?;
        let zone_name = load_secret(zone_name, SecretName::ZoneName)?;
        let zone_id = load_secret(zone_id, SecretName::ZoneId)?;
        Ok(Config { auth_key, token, content, zone_name, zone_id })
    }
}

/// Trims one raw secret and rejects it if missing or blank.
fn load_secret(o: Option<String>, which: SecretName) -> (r: Result<String, ConfigError>)
    ensures
        r is Ok <==> secret_good(o),
        match r {
            Ok(s) => s@ == trim_spec(o.unwrap()@) && s@.len() > 0,
            Err(e) => e == secret_error(o, which),
        },
{
    match o {
        None => Err(ConfigError::MissingSecret(which)),
        Some(raw) => {
            let chars = str_to_chars(raw.as_str());
            let t = trim_chars(&chars);
            if t.len() == 0 {
                Err(ConfigError::EmptySecret(which))
            } else {
                Ok(chars_to_string(&t))
            }
        },
    }
}

/// Whether `c` may appear in an HTTP header value: horizontal tab, or any
/// character other than an ASCII control character or delete.
pub open spec fn is_header_value_char(c: char) -> bool {
    c == '\t' || (c as u32 >= 0x20 && c as u32 != 0x7f)
}

/// Whether every character of `s` may appear in an HTTP header value.
pub open spec fn is_header_value(s: Seq<char>) -> bool {
    forall|k: int| 0 <= k < s.len() ==> is_header_value_char(s[k])
}

/// Decides [`is_header_value`].
pub fn check_header_value(s: &str) -> (r: bool)
    ensures
        r == is_header_value(s@),
{
    let n: usize = s.unicode_len();
    let mut i: usize = 0;
    while i < n
        invariant
            0 <= i <= n,
            n == s@.len(),
            forall|k: int| 0 <= k < i ==> is_header_value_char(s@[k]),
        decreases n - i,
    {
        let c = s.get_char(i);
        let u: u32 = c as u32;
        if !(u == 0x09 || (u >= 0x20 && u != 0x7f)) {
            return false;
        }
        i = i + 1;
    }
    true
}

/// The fixed headers the outbound client carries on every request.
pub struct HeaderPlan {
    /// `Authorization: Bearer <token>`.
    pub authorization: String,
    /// `X-Auth-Key: <auth key>`.
    pub x_auth_key: String,
    /// The service's `User-Agent`.
    pub user_agent: String,
    /// The default `Content-Type`.
    pub content_type: String,
}

/// The value of the `Authorization` header for a bearer token.
pub open spec fn bearer_spec(token: Seq<char>) -> Seq<char> {
    "Bearer "@ + token
}

/// Plans the outbound client's fixed headers from the two credentials.
/// Construction fails exactly when a credential cannot be encoded as a
/// header value; that is a deployment error, fatal at startup.
pub fn build_header_plan(auth_key: &str, token: &str) -> (r: Result<HeaderPlan, ConfigError>)
    ensures
        r is Ok <==> is_header_value(auth_key@) && is_header_value(token@),
        match r {
            Ok(h) => {
                &&& h.authorization@ == bearer_spec(token@)
                &&& h.x_auth_key@ == auth_key@
                &&& h.user_agent@ == "cloudflare-manager"@
                &&& h.content_type@ == "application/json"@
                &&& is_header_value(h.authorization@)
                &&& is_header_value(h.x_auth_key@)
            },
            Err(e) => e == (if !is_header_value(auth_key@) {
                ConfigError::InvalidAuthKey
            } else {
                ConfigError::InvalidToken
            }),
        },
{
    if !check_header_value(auth_key) {
        return Err(ConfigError::InvalidAuthKey);
    }
    if !check_header_value(token) {
        return Err(ConfigError::InvalidToken);
    }
    let mut authorization = String::from_str("Bearer ");
    authorization.append(token);
    proof {
        reveal_strlit("Bearer ");
        assert forall|k: int| 0 <= k < authorization@.len() implies is_header_value_char(
            authorization@[k],
        ) by {
            if k >= 7 {
                assert(authorization@[k] == token@[k - 7]);
            }
        }
    }
    Ok(
        HeaderPlan {
            authorization,
            x_auth_key: String::from_str(auth_key),
            user_agent: String::from_str("cloudflare-manager"),
            content_type: String::from_str("application/json"),
        },
    )
}

/// Whether `c` is an ASCII decimal digit.
pub open spec fn is_dec_digit(c: char) -> bool {
    0x30 <= c as u32 && c as u32 <= 0x39
}

/// The value a sequence of decimal digits denotes.
pub open spec fn dec_val(s: Seq<char>) -> int
    decreases s.len(),
{
    if s.len() == 0 {
        0
    } else {
        dec_val(s.drop_last()) * 10 + (s.last() as u32 - 0x30)
    }
}

/// Whether `s` is one or more decimal digits.
pub open spec fn is_dec_digits(s: Seq<char>) -> bool {
    s.len() > 0 && forall|k: int| 0 <= k < s.len() ==> is_dec_digit(s[k])
}

/// The digits of a decimal numeral: an optional leading `+` is dropped.
pub open spec fn numeral_digits(s: Seq<char>) -> Seq<char> {
    if s.len() > 0 && s[0] == '+' {
        s.drop_first()
    } else {
        s
    }
}

/// The number a decimal numeral denotes, if it is well-formed and at most
/// `max`, as `str::parse` reads unsigned integers.
pub open spec fn parse_dec_spec(s: Seq<char>, max: int) -> Option<int> {
    let digits = numeral_digits(s);
    if is_dec_digits(digits) && dec_val(digits) <= max {
        Some(dec_val(digits))
    } else {
        None
    }
}

proof fn lemma_dec_val_nonneg(s: Seq<char>)
    requires
        forall|k: int| 0 <= k < s.len() ==> is_dec_digit(s[k]),
    ensures
        dec_val(s) >= 0,
    decreases s.len(),
{
    if s.len() > 0 {
        lemma_dec_val_nonneg(s.drop_last());
    }
}

proof fn lemma_dec_val_prefix(s: Seq<char>, i: int)
    requires
        forall|k: int| 0 <= k < s.len() ==> is_dec_digit(s[k]),
        0 <= i <= s.len(),
    ensures
        dec_val(s) >= dec_val(s.take(i)),
    decreases s.len() - i,
{
    if i == s.len() {
        assert(s.take(i) =~= s);
    } else {
        lemma_dec_val_prefix(s, i + 1);
        lemma_dec_val_nonneg(s.take(i));
        assert(s.take(i + 1).drop_last() =~= s.take(i));
        assert(dec_val(s.take(i + 1)) == dec_val(s.take(i)) * 10 + (s[i] as u32 - 0x30));
    }
}

/// Reads a decimal numeral as a `u64`, or `None` if it is malformed or does
/// not fit.
pub fn parse_u64(s: &str) -> (r: Option<u64>)
    ensures
        match r {
            Some(u) => parse_dec_spec(s@, u64::MAX as int) == Some(u as int),
            None => parse_dec_spec(s@, u64::MAX as int) is None,
        },
{
    let v = str_to_chars(s);
    let n: usize = v.len();
    let start: usize = if n > 0 && v[0] == '+' {
        1
    } else {
        0
    };
    let ghost digits = numeral_digits(v@);
    proof {
        assert(digits =~= v@.skip(start as int));
    }
    if n == start {
        return None;
    }
    let mut acc: u64 = 0;
    let mut i: usize = start;
    while i < n
        invariant
            start <= i <= n,
            n == v.len(),
            v@ == s@,
            digits == numeral_digits(v@),
            digits == v@.skip(start as int),
            digits.len() == n - start,
            forall|k: int| 0 <= k < i - start ==> is_dec_digit(digits[k]),
            acc as int == dec_val(digits.take(i - start)),
        decreases n - i,
    {
        let c = v[i];
        let u: u32 = c as u32;
        if !(0x30 <= u && u <= 0x39) {
            proof {
                assert(digits[i - start as int] == v@[i as int]);
                assert(!is_dec_digit(digits[i - start as int]));
                assert(!is_dec_digits(digits));
            }
            return None;
        }
        let d: u64 = (u - 0x30) as u64;
        if acc > (u64::MAX - d) / 10 {
            proof {
                assert(digits[i - start as int] == v@[i as int]);
                if is_dec_digits(digits) {
                    lemma_dec_val_prefix(digits, i + 1 - start as int);
                    let p = digits.take(i + 1 - start as int);
                    assert(p.drop_last() =~= digits.take(i - start as int));
                    assert(p.last() == digits[i - start as int]);
                    assert(dec_val(p) == acc as int * 10 + d as int);
                    let q = (u64::MAX - d) as int / 10;
                    assert(q * 10 + (u64::MAX - d) as int % 10 == (u64::MAX - d) as int);
                    assert(acc as int * 10 + d as int > u64::MAX as int);
                    assert(dec_val(digits) > u64::MAX as int);
                }
            }
            return None;
        }
        acc = acc * 10 + d;
        i = i + 1;
        proof {
            assert(digits[i - 1 - start as int] == v@[(i - 1) as int]);
            assert(digits.take(i - start as int).drop_last() =~= digits.take(i - 1 - start as int));
            assert(digits.take(i - start as int).last() == digits[i - 1 - start as int]);
        }
    }
    proof {
        assert(digits.take(n - start as int) =~= digits);
    }
    Some(acc)
}

/// Reads a decimal numeral as a `usize`, or `None` if it is malformed or
/// does not fit.
pub fn parse_usize(s: &str) -> (r: Option<usize>)
    ensures
        match r {
            Some(u) => parse_dec_spec(s@, usize::MAX as int) == Some(u as int),
            None => parse_dec_spec(s@, usize::MAX as int) is None,
        },
{
    let v = str_to_chars(s);
    let n: usize = v.len();
    let start: usize = if n > 0 && v[0] == '+' {
        1
    } else {
        0
    };
    let ghost digits = numeral_digits(v@);
    proof {
        assert(digits =~= v@.skip(start as int));
    }
    if n == start {
        return None;
    }
    let mut acc: usize = 0;
    let mut i: usize = start;
    while i < n
        invariant
            start <= i <= n,
            n == v.len(),
            v@ == s@,
            digits == numeral_digits(v@),
            digits == v@.skip(start as int),
            digits.len() == n - start,
            forall|k: int| 0 <= k < i - start ==> is_dec_digit(digits[k]),
            acc as int == dec_val(digits.take(i - start)),
        decreases n - i,
    {
        let c = v[i];
        let u: u32 = c as u32;
        if !(0x30 <= u && u <= 0x39) {
            proof {
                assert(digits[i - start as int] == v@[i as int]);
                assert(!is_dec_digit(digits[i - start as int]));
                assert(!is_dec_digits(digits));
            }
            return None;
        }
        let d: usize = (u - 0x30) as usize;
        if acc > (usize::MAX - d) / 10 {
            proof {
                assert(digits[i - start as int] == v@[i as int]);
                if is_dec_digits(digits) {
                    lemma_dec_val_prefix(digits, i + 1 - start as int);
                    let p = digits.take(i + 1 - start as int);
                    assert(p.drop_last() =~= digits.take(i - start as int));
                    assert(p.last() == digits[i - start as int]);
                    assert(dec_val(p) == acc as int * 10 + d as int);
                    let q = (usize::MAX - d) as int / 10;
                    assert(q * 10 + (usize::MAX - d) as int % 10 == (usize::MAX - d) as int);
                    assert(acc as int * 10 + d as int > usize::MAX as int);
                    assert(dec_val(digits) > usize::MAX as int);
                }
            }
            return None;
        }
        acc = acc * 10 + d;
        i = i + 1;
        proof {
            assert(digits[i - 1 - start as int] == v@[(i - 1) as int]);
            assert(digits.take(i - start as int).drop_last() =~= digits.take(i - 1 - start as int));
            assert(digits.take(i - start as int).last() == digits[i - 1 - start as int]);
        }
    }
    proof {
        assert(digits.take(n - start as int) =~= digits);
    }
    Some(acc)
}

/// The process's network parameters, with their defaults.
pub struct ServerParams {
    pub host: String,
    pub port: u64,
    pub workers: usize,
    pub secret_path: String,
}

/// Resolves the process parameters from their optional environment
/// settings: absent settings take the defaults (loopback host, port 8080,
/// one worker, directory `secret`); a present but unparsable numeric
/// setting is a fatal startup error.
pub fn read_params(
    host: Option<String>,
    port: Option<String>,
    workers: Option<String>,
    secret_path: Option<String>,
) -> (r: Result<ServerParams, ConfigError>)
    ensures
        r is Ok <==> (match port {
            Some(s) => parse_dec_spec(s@, u64::MAX as int) is Some,
            None => true,
        }) && (match workers {
            Some(s) => parse_dec_spec(s@, usize::MAX as int) is Some,
            None => true,
        }),
        match r {
            Ok(p) => {
                &&& p.host@ == (match host {
                    Some(h) => h@,
                    None => "127.0.0.1"@,
                })
                &&& (match port {
                    Some(s) => parse_dec_spec(s@, u64::MAX as int) == Some(p.port as int),
                    None => p.port == 8080,
                })
                &&& (match workers {
                    Some(s) => parse_dec_spec(s@, usize::MAX as int) == Some(p.workers as int),
                    None => p.workers == 1,
                })
                &&& p.secret_path@ == (match secret_path {
                    Some(d) => d@,
                    None => "secret"@,
                })
            },
            Err(e) => e == (if (match port {
                Some(s) => parse_dec_spec(s@, u64::MAX as int) is None,
                None => false,
            }) {
                ConfigError::BadPort
            } else {
                ConfigError::BadWorkers
            }),
        },
{
    let host = match host {
        Some(h) => h,
        None => String::from_str("127.0.0.1"),
    };
    let port = match port {
        Some(s) => match parse_u64(s.as_str()) {
            Some(u) => u,
            None => {
                return Err(ConfigError::BadPort);
            },
        },
        None => 8080,
    };
    let workers = match workers {
        Some(s) => match parse_usize(s.as_str()) {
            Some(u) => u,
            None => {
                return Err(ConfigError::BadWorkers);
            },
        },
        None => 1,
    };
    let secret_path = match secret_path {
        Some(d) => d,
        None => String::from_str("secret"),
    };
    Ok(ServerParams { host, port, workers, secret_path })
}

} // verus!
