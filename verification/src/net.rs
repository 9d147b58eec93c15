//! URLs and HTTP bits shared by the sign-in flows and the skin fetcher: the parts of a parsed
//! URL, query parameters, form encoding and status codes.
use vstd::prelude::*;

verus! {

/// The parts of a URL the launcher looks at.
pub struct ParsedUrl {
    pub scheme: String,
    pub host: Option<String>,
    /// The port written in the URL, absent when it is the scheme's default.
    pub port: Option<u16>,
    /// The port written in the URL, or else the scheme's default, when it has one.
    pub port_or_default: Option<u16>,
    pub path: String,
    /// The query's `key=value` pairs, percent-decoded, in order.
    pub query: Vec<(String, String)>,
}

/// The value of a `ParsedUrl`.
pub struct UrlParts {
    pub scheme: Seq<char>,
    pub host: Option<Seq<char>>,
    pub port: Option<u16>,
    pub port_or_default: Option<u16>,
    pub path: Seq<char>,
    pub query: Seq<(Seq<char>, Seq<char>)>,
}

pub open spec fn pair_texts(pairs: Seq<(String, String)>) -> Seq<(Seq<char>, Seq<char>)> {
    pairs.map_values(|p: (String, String)| (p.0@, p.1@))
}

pub open spec fn opt_text(o: Option<String>) -> Option<Seq<char>> {
    match o {
        Some(s) => Some(s@),
        None => None,
    }
}

impl View for ParsedUrl {
    type V = UrlParts;

    open spec fn view(&self) -> UrlParts {
        UrlParts {
            scheme: self.scheme@,
            host: opt_text(self.host),
            port: self.port,
            port_or_default: self.port_or_default,
            path: self.path@,
            query: pair_texts(self.query@),
        }
    }
}

/// What `url::Url::parse` makes of `text`: its parts, or the text of the parse error.
pub uninterp spec fn parsed_url(text: Seq<char>) -> Result<UrlParts, Seq<char>>;

pub open spec fn parse_view(r: Result<ParsedUrl, String>) -> Result<UrlParts, Seq<char>> {
    match r {
        Ok(u) => Ok(u@),
        Err(e) => Err(e@),
    }
}

/// `url::Url::parse(text)`, read back through `scheme`, `host_str`, `port`,
/// `port_or_known_default`, `path` and `query_pairs`; a parse error becomes its text. Claimed:
/// the result is `parsed_url` of the text, that is, it depends on the text alone.
#[verifier::external_body]
pub(crate) fn parse_url(text: &str) -> (r: Result<ParsedUrl, String>)
    ensures
        parse_view(r) == parsed_url(text@),
{
    match url::Url::parse(text) {
        Ok(u) => Ok(ParsedUrl {
            scheme: u.scheme().to_string(),
            host: u.host_str().map(|h| h.to_string()),
            port: u.port(),
            port_or_default: u.port_or_known_default(),
            path: u.path().to_string(),
            query: u.query_pairs().map(|(k, v)| (k.into_owned(), v.into_owned())).collect(),
        }),
        Err(e) => Err(e.to_string()),
    }
}

/// A byte that the `application/x-www-form-urlencoded` serializer writes as it is: ASCII
/// letters and digits, `*`, `-`, `.` and `_`.
pub open spec fn form_unchanged(b: u8) -> bool {
    (0x30 <= b <= 0x39) || (0x41 <= b <= 0x5a) || (0x61 <= b <= 0x7a) || b == 0x2a || b == 0x2d
        || b == 0x2e || b == 0x5f
}

/// How the serializer writes one byte: unchanged, a space as `+`, any other as `%XX` with
/// upper-case hex digits.
pub open spec fn form_byte(b: u8) -> Seq<char> {
    if form_unchanged(b) {
        seq![b as char]
    } else if b == 0x20 {
        seq!['+']
    } else {
        seq!['%', crate::text::hex_upper(b as int / 16), crate::text::hex_upper(b as int % 16)]
    }
}

/// The serializer's output for a run of bytes, byte by byte.
pub open spec fn form_bytes(bytes: Seq<u8>) -> Seq<char>
    decreases bytes.len(),
{
    if bytes.len() == 0 {
        Seq::<char>::empty()
    } else {
        form_bytes(bytes.drop_last()) + form_byte(bytes.last())
    }
}

/// One name or value, serialized from its UTF-8 bytes.
pub open spec fn form_component(text: Seq<char>) -> Seq<char> {
    form_bytes(vstd::utf8::encode_utf8(text))
}

/// What `url::form_urlencoded::Serializer` writes for `pairs`: `name=value` for each pair, both
/// serialized, joined by `&`.
pub open spec fn form_encoded(pairs: Seq<(Seq<char>, Seq<char>)>) -> Seq<char>
    decreases pairs.len(),
{
    if pairs.len() == 0 {
        Seq::<char>::empty()
    } else {
        let last = form_component(pairs.last().0) + seq!['='] + form_component(pairs.last().1);
        if pairs.len() == 1 {
            last
        } else {
            form_encoded(pairs.drop_last()) + seq!['&'] + last
        }
    }
}

/// `url::form_urlencoded::Serializer` over `pairs`, finished. Claimed: the result is
/// `form_encoded` of the pairs' texts, the serializer's byte rule as its source writes it.
#[verifier::external_body]
pub(crate) fn form_encode(pairs: &Vec<(String, String)>) -> (r: String)
    ensures
        r@ == form_encoded(pair_texts(pairs@)),
{
    url::form_urlencoded::Serializer::new(String::new()).extend_pairs(pairs.iter()).finish()
}

/// The value of the first pair whose key is `key`.
pub open spec fn first_value(pairs: Seq<(Seq<char>, Seq<char>)>, key: Seq<char>) -> Option<Seq<char>>
    decreases pairs.len(),
{
    if pairs.len() == 0 {
        None
    } else if pairs[0].0 == key {
        Some(pairs[0].1)
    } else {
        first_value(pairs.skip(1), key)
    }
}

/// The value of the last pair whose key is `key`: what a map built from the pairs holds.
pub open spec fn last_value(pairs: Seq<(Seq<char>, Seq<char>)>, key: Seq<char>) -> Option<Seq<char>>
    decreases pairs.len(),
{
    if pairs.len() == 0 {
        None
    } else if pairs.last().0 == key {
        Some(pairs.last().1)
    } else {
        last_value(pairs.drop_last(), key)
    }
}

/// The value of the first query parameter named `key`.
pub fn query_first(pairs: &Vec<(String, String)>, key: &str) -> (r: Option<String>)
    ensures
        opt_text(r) == first_value(pair_texts(pairs@), key@),
{
    let ghost all = pair_texts(pairs@);
    let mut i: usize = 0;
    assert(all.skip(0) =~= all);
    while i < pairs.len()
        invariant
            i <= pairs.len(),
            all == pair_texts(pairs@),
            first_value(all, key@) == first_value(all.skip(i as int), key@),
        decreases pairs.len() - i,
    {
        assert(all.skip(i as int)[0] == all[i as int]);
        assert(all.skip(i as int).skip(1) =~= all.skip(i + 1));
        if crate::text::str_eq(pairs[i].0.as_str(), key) {
            return Some(pairs[i].1.clone());
        }
        i = i + 1;
    }
    None
}

/// The value of the last query parameter named `key`.
pub fn query_last(pairs: &Vec<(String, String)>, key: &str) -> (r: Option<String>)
    ensures
        opt_text(r) == last_value(pair_texts(pairs@), key@),
{
    let ghost all = pair_texts(pairs@);
    let mut i: usize = pairs.len();
    assert(all.take(i as int) =~= all);
    while i > 0
        invariant
            i <= pairs.len(),
            all == pair_texts(pairs@),
            last_value(all, key@) == last_value(all.take(i as int), key@),
        decreases i,
    {
        assert(all.take(i as int).last() == all[i - 1]);
        assert(all.take(i as int).drop_last() =~= all.take(i - 1));
        if crate::text::str_eq(pairs[i - 1].0.as_str(), key) {
            return Some(pairs[i - 1].1.clone());
        }
        i = i - 1;
    }
    None
}

/// A `2xx` status.
pub open spec fn success_status(code: u16) -> bool {
    200 <= code <= 299
}

pub fn is_success_status(code: u16) -> (b: bool)
    ensures
        b == success_status(code),
{
    200 <= code && code <= 299
}

/// The error text for a failed request: `<what> (<status>): <body>`.
pub fn http_failure(what: &str, status: &str, body: &str) -> (m: String)
    ensures
        m@ == what@ + " ("@ + status@ + "): "@ + body@,
{
    let mut v = crate::text::chars_of(what);
    crate::text::extend_str(&mut v, " (");
    crate::text::extend_str(&mut v, status);
    crate::text::extend_str(&mut v, "): ");
    crate::text::extend_str(&mut v, body);
    crate::text::string_of(v.as_slice())
}

/// The error for a request answered with a failure status: `<what> (<status>)`.
pub fn status_message(what: &str, status: &str) -> (m: String)
    ensures
        m@ == what@ + " ("@ + status@ + ")"@,
{
    let mut v = crate::text::chars_of(what);
    crate::text::extend_str(&mut v, " (");
    crate::text::extend_str(&mut v, status);
    crate::text::extend_str(&mut v, ")");
    crate::text::string_of(v.as_slice())
}

} // verus!
