//! Trusted declarations for the outside crates the library leans on: the
//! system clock and RFC 3339 formatting (time), shell quoting (shell-words),
//! URL query parsing (url) and Set-Cookie parsing (cookie). Each contract is
//! checked against that crate's source, not proved.

use vstd::prelude::*;

verus! {

/// Relies on time's `OffsetDateTime::now_utc` and `unix_timestamp_nanos`:
/// reads the system clock; nothing is promised of the value (negative clock
/// readings collapse to zero).
#[verifier::external_body]
pub(crate) fn now_unix_nanos() -> u64 {
    let n: i128 = time::OffsetDateTime::now_utc().unix_timestamp_nanos();
    n.try_into().unwrap_or(0)
}

/// The RFC 3339 text of a Unix timestamp in nanoseconds, as time's
/// formatter renders it.
pub uninterp spec fn rfc3339_of(nanos: int) -> Seq<char>;

/// Relies on time's `OffsetDateTime::from_unix_timestamp_nanos` and
/// `format(&Rfc3339)`: the text depends on the timestamp alone, and both
/// steps succeed for timestamps between 1970 and years far in the future.
#[verifier::external_body]
pub(crate) fn format_rfc3339(nanos: i128) -> (r: Option<String>)
    ensures
        r matches Some(s) ==> s@ == rfc3339_of(nanos as int),
        0 <= nanos < 4_000_000_000_000_000_000i128 ==> r is Some,
{
    let dt = time::OffsetDateTime::from_unix_timestamp_nanos(nanos).ok()?;
    dt.format(&time::format_description::well_known::Rfc3339).ok()
}

/// A character that makes shell-words quote a string.
pub open spec fn spec_shell_special(c: char) -> bool {
    ||| c == '\n'
    ||| c == '\''
    ||| c == '|'
    ||| c == '&'
    ||| c == ';'
    ||| c == '<'
    ||| c == '>'
    ||| c == '('
    ||| c == ')'
    ||| c == '$'
    ||| c == '`'
    ||| c == '\\'
    ||| c == '"'
    ||| c == ' '
    ||| c == '\t'
    ||| c == '*'
    ||| c == '?'
    ||| c == '['
    ||| c == '#'
    ||| c == '~'
    ||| c == '='
    ||| c == '%'
}

/// Single quotes replaced by the `'\''` escape, other characters kept.
pub open spec fn spec_quote_escape(s: Seq<char>) -> Seq<char>
    decreases s.len(),
{
    if s.len() == 0 {
        Seq::empty()
    } else {
        (if s[0] == '\'' {
            seq!['\'', '\\', '\'', '\'']
        } else {
            seq![s[0]]
        }) + spec_quote_escape(s.drop_first())
    }
}

/// What shell-words' `quote` returns: the input unchanged when it holds no
/// special character, else wrapped in single quotes, with single quotes
/// escaped when any occur.
pub open spec fn spec_shell_quote(s: Seq<char>) -> Seq<char> {
    if s.len() == 0 {
        seq!['\'', '\'']
    } else if forall|i: int| 0 <= i < s.len() ==> !spec_shell_special(#[trigger] s[i]) {
        s
    } else if (exists|i: int| 0 <= i < s.len() && s[i] == '\n') && (forall|i: int|
        0 <= i < s.len() ==> #[trigger] s[i] != '\'') {
        seq!['\''] + s + seq!['\'']
    } else {
        seq!['\''] + spec_quote_escape(s) + seq!['\'']
    }
}

/// Relies on shell-words' `quote`: quoting that preserves the literal
/// meaning of the text in a POSIX shell.
#[verifier::external_body]
pub(crate) fn shell_quote(s: &str) -> (r: String)
    ensures
        r@ == spec_shell_quote(s@),
{
    shell_words::quote(s).into_owned()
}

/// The name/value pairs of a URL's query component, percent-decoded as the
/// url crate reads them; absent when the URL does not parse.
pub uninterp spec fn url_query_of(s: Seq<char>) -> Option<Seq<(Seq<char>, Seq<char>)>>;

/// Relies on url's `Url::parse` and `query_pairs`: both depend on the URL
/// text alone.
#[verifier::external_body]
pub(crate) fn url_query_pairs(url: &str) -> (r: Option<Vec<(String, String)>>)
    ensures
        r is Some <==> url_query_of(url@) is Some,
        r matches Some(v) ==> url_query_of(url@) == Some(
            v@.map_values(|p: (String, String)| (p.0@, p.1@)),
        ),
{
    let u = url::Url::parse(url).ok()?;
    Some(u.query_pairs().map(|(k, v)| (k.into_owned(), v.into_owned())).collect())
}

/// The view of an optional string.
pub open spec fn opt_str_view(o: Option<String>) -> Option<Seq<char>> {
    match o {
        Option::None => Option::None,
        Option::Some(s) => Option::Some(s@),
    }
}

/// The mathematical value of an optional machine integer.
pub open spec fn opt_int_view(o: Option<i128>) -> Option<int> {
    match o {
        Option::None => Option::None,
        Option::Some(n) => Option::Some(n as int),
    }
}

/// What cookie's `Cookie::parse` extracts from a `set-cookie` value: name,
/// value, path, domain, a fixed expiry as a Unix timestamp in nanoseconds,
/// and the `HttpOnly`/`Secure` flags; absent when parsing fails.
pub uninterp spec fn cookie_parse_of(s: Seq<char>) -> Option<
    (
        Seq<char>,
        Seq<char>,
        Option<Seq<char>>,
        Option<Seq<char>>,
        Option<int>,
        Option<bool>,
        Option<bool>,
    ),
>;

/// Relies on cookie's `Cookie::parse` and its accessors (`name`, `value`,
/// `path`, `domain`, `expires`, `http_only`, `secure`) plus time's
/// `unix_timestamp_nanos` for a fixed expiry date: all depend on the header
/// text alone.
#[verifier::external_body]
pub(crate) fn parse_set_cookie(raw: &str) -> (r: Option<
    (String, String, Option<String>, Option<String>, Option<i128>, Option<bool>, Option<bool>),
>)
    ensures
        r is Some <==> cookie_parse_of(raw@) is Some,
        r matches Some(t) ==> cookie_parse_of(raw@) == Some(
            (
                t.0@,
                t.1@,
                opt_str_view(t.2),
                opt_str_view(t.3),
                opt_int_view(t.4),
                t.5,
                t.6,
            ),
        ),
{
    let c = cookie::Cookie::parse(raw).ok()?;
    Some((
        c.name().to_string(),
        c.value().to_string(),
        c.path().map(|v| v.to_string()),
        c.domain().map(|v| v.to_string()),
        match c.expires() {
            Some(cookie::Expiration::DateTime(dt)) => Some(dt.unix_timestamp_nanos()),
            _ => None,
        },
        c.http_only(),
        c.secure(),
    ))
}

} // verus!
