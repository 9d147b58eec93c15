//! Skins: the checks made before a skin image is fetched from an address the backend chose,
//! the `data:` URI it is handed to the viewer in, and the cache of skin lists.
use vstd::prelude::*;

use base64::Engine;
use std::hash::{Hash, Hasher};

use crate::mods::{path_in, path_view};
use crate::net::{opt_text, parsed_url};
use crate::text::{chars_of, extend_str, hex_lower, starts_with, string_of};

verus! {

// ---------------------------------------------------------------------------------------------
// Cache keys and locations
// ---------------------------------------------------------------------------------------------

/// The value `std::collections::hash_map::DefaultHasher::new()` finishes with after hashing the
/// string `input` (`str`'s `Hash`: its bytes, then `0xff`).
pub uninterp spec fn default_hash(input: Seq<char>) -> u64;

/// `input` hashed (`Hash for str`) into a fresh `DefaultHasher::new()`, finished. Claimed: the
/// result is `default_hash` of the text, that is, it depends on the text alone (`new` is not
/// randomly seeded, unlike `RandomState`).
#[verifier::external_body]
fn hash_text(input: &str) -> (h: u64)
    ensures
        h == default_hash(input@),
{
    let mut hasher = std::collections::hash_map::DefaultHasher::new();
    input.hash(&mut hasher);
    hasher.finish()
}

pub open spec fn pow16(k: nat) -> nat
    decreases k,
{
    if k == 0 {
        1
    } else {
        16 * pow16((k - 1) as nat)
    }
}

/// `n` as 16 lower-case hexadecimal digits, zero-padded (`{:016x}`).
pub open spec fn hex16(n: u64) -> Seq<char> {
    Seq::new(16, |i: int| hex_lower(((n as nat) / pow16((15 - i) as nat)) as int % 16))
}

fn hex_digit(d: u64) -> (c: char)
    requires
        d < 16,
    ensures
        c == hex_lower(d as int),
{
    if d < 10 {
        ((d as u8) + ('0' as u8)) as char
    } else {
        ((d as u8 - 10) + ('a' as u8)) as char
    }
}

proof fn lemma_pow16_step(k: nat)
    ensures
        pow16(k + 1) == 16 * pow16(k),
        pow16(k) > 0,
    decreases k,
{
    if k > 0 {
        lemma_pow16_step((k - 1) as nat);
    }
}

pub fn hex16_text(n: u64) -> (s: Vec<char>)
    ensures
        s@ == hex16(n),
{
    let mut digits: Vec<char> = Vec::new();
    let mut i: usize = 0;
    let mut rest: u64 = n;
    assert(pow16(0) == 1);
    // digits are produced from the last (least significant) to the first
    while i < 16
        invariant
            i <= 16,
            digits@.len() == i,
            rest as nat == (n as nat) / pow16(i as nat),
            forall|j: int| 0 <= j < i ==> #[trigger] digits@[j] == hex_lower(
                ((n as nat) / pow16(j as nat)) as int % 16,
            ),
        decreases 16 - i,
    {
        let d = rest % 16;
        proof {
            lemma_pow16_step(i as nat);
            vstd::arithmetic::div_mod::lemma_div_denominator(
                n as int,
                pow16(i as nat) as int,
                16,
            );
            assert(pow16(i as nat) * 16 == 16 * pow16(i as nat)) by (nonlinear_arith);
        }
        digits.push(hex_digit(d));
        rest = rest / 16;
        i = i + 1;
    }
    let mut out: Vec<char> = Vec::new();
    let mut k: usize = 0;
    while k < 16
        invariant
            k <= 16,
            digits@.len() == 16,
            forall|j: int| 0 <= j < 16 ==> #[trigger] digits@[j] == hex_lower(
                ((n as nat) / pow16(j as nat)) as int % 16,
            ),
            out@ == hex16(n).take(k as int),
        decreases 16 - k,
    {
        out.push(digits[15 - k]);
        k = k + 1;
        assert(out@ =~= hex16(n).take(k as int));
    }
    assert(hex16(n).take(16) =~= hex16(n));
    out
}

/// The cache file name for `input`: the 16 hex digits of its hash.
pub fn cache_key(input: &str) -> (k: String)
    ensures
        k@ == hex16(default_hash(input@)),
{
    let h = hash_text(input);
    let v = hex16_text(h);
    string_of(v.as_slice())
}

/// Where fetched skin images are cached.
pub fn image_cache_dir(game_dir: &str) -> (p: Vec<String>)
    ensures
        path_view(p@) == path_in(game_dir@, "skin_image_cache"@),
{
    crate::mods::join_path(game_dir, "skin_image_cache")
}

/// The cached list of a player's licence-server skins.
pub fn skins_list_cache_path(game_dir: &str, username: &str) -> (p: Vec<String>)
    ensures
        path_view(p@) == seq![
            game_dir@,
            "skins_list_cache"@,
            "license_"@ + hex16(default_hash(username@)) + ".json"@,
        ],
{
    let key = cache_key(username);
    let mut name = chars_of("license_");
    extend_str(&mut name, key.as_str());
    extend_str(&mut name, ".json");
    let mut p: Vec<String> = Vec::new();
    p.push(game_dir.to_owned());
    p.push("skins_list_cache".to_owned());
    p.push(string_of(name.as_slice()));
    assert(path_view(p@) =~= seq![
        game_dir@,
        "skins_list_cache"@,
        "license_"@ + hex16(default_hash(username@)) + ".json"@,
    ]);
    p
}

/// A cache file is used while its age is at most `ttl_secs`; a file dated in the future (no age)
/// is not used.
pub fn cache_is_fresh(age: Option<(u64, u32)>, ttl_secs: u64) -> (b: bool)
    ensures
        b == match age {
            None => false,
            Some((secs, nanos)) => !(secs > ttl_secs || (secs == ttl_secs && nanos > 0)),
        },
{
    match age {
        None => false,
        Some((secs, nanos)) => !(secs > ttl_secs || (secs == ttl_secs && nanos > 0)),
    }
}

/// How long a fetched skin image is served from the cache: an hour.
pub const IMAGE_CACHE_TTL_SECS: u64 = 3600;

/// How old a cached skin list may be and still stand in for the live one: thirty days.
pub const SKINS_LIST_FALLBACK_MAX_AGE_SECS: u64 = 2592000;

/// The live result when there is one, else the cached one, else the live error.
pub fn live_or_cached<T>(live: Result<T, String>, cached: Option<T>) -> (r: Result<T, String>)
    ensures
        live is Ok ==> r == live,
        live matches Err(e) ==> match cached {
            Some(c) => r == Ok::<T, String>(c),
            None => r == Err::<T, String>(e),
        },
{
    match live {
        Ok(v) => Ok(v),
        Err(e) => match cached {
            Some(c) => Ok(c),
            None => Err(e),
        },
    }
}

// ---------------------------------------------------------------------------------------------
// Where a skin image may be fetched from
// ---------------------------------------------------------------------------------------------

/// An IP address, by its octets or its 16-bit segments.
#[derive(Debug, Clone, Copy)]
pub enum IpAddress {
    V4([u8; 4]),
    V6([u16; 8]),
}

/// The IPv4 addresses that are loopback, private, link-local, unspecified or broadcast.
pub open spec fn v4_private_or_local(o: Seq<u8>) -> bool {
    ||| o[0] == 127
    ||| o[0] == 10
    ||| (o[0] == 172 && 16 <= o[1] <= 31)
    ||| (o[0] == 192 && o[1] == 168)
    ||| (o[0] == 169 && o[1] == 254)
    ||| (o[0] == 0 && o[1] == 0 && o[2] == 0 && o[3] == 0)
    ||| (o[0] == 255 && o[1] == 255 && o[2] == 255 && o[3] == 255)
}

/// `::ffff:a.b.c.d`, an IPv4 address carried in IPv6.
pub open spec fn v4_mapped(s: Seq<u16>) -> bool {
    s[0] == 0 && s[1] == 0 && s[2] == 0 && s[3] == 0 && s[4] == 0 && s[5] == 0xffff
}

/// The IPv4 address inside an IPv4-mapped IPv6 address.
pub open spec fn mapped_octets(s: Seq<u16>) -> Seq<u8> {
    seq![(s[6] / 256) as u8, (s[6] % 256) as u8, (s[7] / 256) as u8, (s[7] % 256) as u8]
}

/// The IPv6 addresses that are loopback (`::1`), unspecified (`::`), unicast link-local
/// (`fe80::/10`) or unique local (`fc00::/7`).
pub open spec fn v6_private_or_local(s: Seq<u16>) -> bool {
    let zero_head = s[0] == 0 && s[1] == 0 && s[2] == 0 && s[3] == 0 && s[4] == 0 && s[5] == 0
        && s[6] == 0;
    ||| (zero_head && (s[7] == 0 || s[7] == 1))
    ||| 0xfe80 <= s[0] <= 0xfebf
    ||| 0xfc00 <= s[0] <= 0xfdff
}

/// An address the launcher refuses to fetch from: one of this machine or its local network.
/// An IPv4-mapped IPv6 address is judged by the IPv4 rules.
pub open spec fn private_or_local(ip: IpAddress) -> bool {
    match ip {
        IpAddress::V4(o) => v4_private_or_local(o@),
        IpAddress::V6(s) => if v4_mapped(s@) {
            v4_private_or_local(mapped_octets(s@))
        } else {
            v6_private_or_local(s@)
        },
    }
}

fn v4_check(o: [u8; 4]) -> (b: bool)
    ensures
        b == v4_private_or_local(o@),
{
    o[0] == 127 || o[0] == 10 || (o[0] == 172 && 16 <= o[1] && o[1] <= 31) || (o[0] == 192 && o[1]
        == 168) || (o[0] == 169 && o[1] == 254) || (o[0] == 0 && o[1] == 0 && o[2] == 0 && o[3]
        == 0) || (o[0] == 255 && o[1] == 255 && o[2] == 255 && o[3] == 255)
}

pub fn is_private_or_local(ip: IpAddress) -> (b: bool)
    ensures
        b == private_or_local(ip),
{
    match ip {
        IpAddress::V4(o) => v4_check(o),
        IpAddress::V6(s) => {
            if s[0] == 0 && s[1] == 0 && s[2] == 0 && s[3] == 0 && s[4] == 0 && s[5] == 0xffff {
                let o: [u8; 4] = [
                    (s[6] / 256) as u8,
                    (s[6] % 256) as u8,
                    (s[7] / 256) as u8,
                    (s[7] % 256) as u8,
                ];
                assert(o@ =~= mapped_octets(s@));
                v4_check(o)
            } else {
                let zero_head = s[0] == 0 && s[1] == 0 && s[2] == 0 && s[3] == 0 && s[4] == 0
                    && s[5] == 0 && s[6] == 0;
                (zero_head && (s[7] == 0 || s[7] == 1)) || (0xfe80 <= s[0] && s[0] <= 0xfebf) || (
                0xfc00 <= s[0] && s[0] <= 0xfdff)
            }
        },
    }
}

pub const BAD_SKIN_ADDRESS: &'static str = "Недопустимый адрес изображения скина";

/// The host and port a skin image address names, when it is an `http` or `https` URL with a host.
pub open spec fn skin_target(url: Seq<char>) -> Result<(Seq<char>, u16), Seq<char>> {
    match parsed_url(url) {
        Err(_) => Err(BAD_SKIN_ADDRESS@),
        Ok(u) => if u.scheme != "http"@ && u.scheme != "https"@ {
            Err(BAD_SKIN_ADDRESS@)
        } else {
            match u.host {
                None => Err(BAD_SKIN_ADDRESS@),
                Some(h) => Ok(
                    (
                        h,
                        match u.port_or_default {
                            Some(p) => p,
                            None => 443,
                        },
                    ),
                ),
            }
        },
    }
}

pub fn skin_host_target(url: &str) -> (r: Result<(String, u16), String>)
    ensures
        match r {
            Ok((h, p)) => skin_target(url@) == Ok::<(Seq<char>, u16), Seq<char>>((h@, p)),
            Err(e) => skin_target(url@) == Err::<(Seq<char>, u16), Seq<char>>(e@),
        },
{
    match crate::net::parse_url(url) {
        Err(_) => Err(BAD_SKIN_ADDRESS.to_owned()),
        Ok(u) => {
            if !crate::text::str_eq(u.scheme.as_str(), "http") && !crate::text::str_eq(
                u.scheme.as_str(),
                "https",
            ) {
                return Err(BAD_SKIN_ADDRESS.to_owned());
            }
            let port = match u.port_or_default {
                Some(p) => p,
                None => 443,
            };
            match u.host {
                None => Err(BAD_SKIN_ADDRESS.to_owned()),
                Some(h) => Ok((h, port)),
            }
        },
    }
}

/// The resolved addresses of a skin host are used only when there is one and none of them is
/// local; the first is then pinned for the request, so that a second lookup cannot move it.
pub fn check_resolved(addrs: &Vec<IpAddress>) -> (r: Result<(), String>)
    ensures
        r is Ok <==> addrs.len() > 0 && forall|i: int|
            0 <= i < addrs.len() ==> !private_or_local(#[trigger] addrs@[i]),
        r matches Err(e) ==> e@ == BAD_SKIN_ADDRESS@,
{
    if addrs.len() == 0 {
        return Err(BAD_SKIN_ADDRESS.to_owned());
    }
    let mut i: usize = 0;
    while i < addrs.len()
        invariant
            i <= addrs.len(),
            forall|j: int| 0 <= j < i ==> !private_or_local(#[trigger] addrs@[j]),
        decreases addrs.len() - i,
    {
        if is_private_or_local(addrs[i]) {
            return Err(BAD_SKIN_ADDRESS.to_owned());
        }
        i = i + 1;
    }
    Ok(())
}

// ---------------------------------------------------------------------------------------------
// The image itself
// ---------------------------------------------------------------------------------------------

/// The largest skin image fetched: 20 MiB.
pub const MAX_SKIN_IMAGE_BYTES: u64 = 20971520;

pub const SKIN_TOO_LARGE: &'static str = "Файл скина подозрительно велик";

pub const NOT_AN_IMAGE: &'static str = "Ответ не является изображением";

/// A skin whose announced length is over the limit is not downloaded.
pub fn check_skin_length(content_length: Option<u64>) -> (r: Result<(), String>)
    ensures
        r is Ok <==> !(content_length matches Some(n) && n > MAX_SKIN_IMAGE_BYTES),
        r matches Err(e) ==> e@ == SKIN_TOO_LARGE@,
{
    match content_length {
        Some(n) => if n > MAX_SKIN_IMAGE_BYTES {
            Err(SKIN_TOO_LARGE.to_owned())
        } else {
            Ok(())
        },
        None => Ok(()),
    }
}

/// The digit of the standard base64 alphabet for a six-bit value: `A`-`Z`, `a`-`z`, `0`-`9`,
/// `+`, `/`.
pub open spec fn base64_digit(v: int) -> char {
    if v < 26 {
        ((('A' as int) + v) as u32) as char
    } else if v < 52 {
        ((('a' as int) + v - 26) as u32) as char
    } else if v < 62 {
        ((('0' as int) + v - 52) as u32) as char
    } else if v == 62 {
        '+'
    } else {
        '/'
    }
}

/// Standard padded base64 (RFC 4648): each group of three bytes becomes four digits, and a
/// last group of one or two bytes becomes two or three digits padded with `=` to four.
pub open spec fn base64_standard(bytes: Seq<u8>) -> Seq<char>
    decreases bytes.len(),
{
    if bytes.len() == 0 {
        Seq::<char>::empty()
    } else if bytes.len() == 1 {
        let b0 = bytes[0] as int;
        seq![base64_digit(b0 / 4), base64_digit((b0 % 4) * 16), '=', '=']
    } else if bytes.len() == 2 {
        let b0 = bytes[0] as int;
        let b1 = bytes[1] as int;
        seq![base64_digit(b0 / 4), base64_digit((b0 % 4) * 16 + b1 / 16), base64_digit((b1 % 16) * 4), '=']
    } else {
        let b0 = bytes[0] as int;
        let b1 = bytes[1] as int;
        let b2 = bytes[2] as int;
        seq![
            base64_digit(b0 / 4),
            base64_digit((b0 % 4) * 16 + b1 / 16),
            base64_digit((b1 % 16) * 4 + b2 / 64),
            base64_digit(b2 % 64),
        ] + base64_standard(bytes.skip(3))
    }
}

/// `base64::engine::general_purpose::STANDARD.encode(bytes)`: standard alphabet, padded.
/// Claimed: the result is `base64_standard` of the bytes.
#[verifier::external_body]
fn base64_encode(bytes: &[u8]) -> (s: String)
    ensures
        s@ == base64_standard(bytes@),
{
    base64::engine::general_purpose::STANDARD.encode(bytes)
}

/// The content type of a skin response, `image/png` when it sent none.
pub open spec fn skin_content_type(content_type: Option<Seq<char>>) -> Seq<char> {
    match content_type {
        Some(t) => t,
        None => "image/png"@,
    }
}

/// The `data:` URI for a fetched skin image, or why it is refused: not an image, or too large.
pub open spec fn skin_data(content_type: Option<Seq<char>>, bytes: Seq<u8>) -> Result<Seq<char>, Seq<char>> {
    let ct = skin_content_type(content_type);
    if !starts_with(ct, "image/"@) {
        Err(NOT_AN_IMAGE@)
    } else if bytes.len() > MAX_SKIN_IMAGE_BYTES {
        Err(SKIN_TOO_LARGE@)
    } else {
        Ok("data:"@ + ct + ";base64,"@ + base64_standard(bytes))
    }
}

pub fn skin_data_uri(content_type: Option<String>, bytes: &[u8]) -> (r: Result<String, String>)
    ensures
        match r {
            Ok(u) => skin_data(opt_text(content_type), bytes@) == Ok::<Seq<char>, Seq<char>>(u@),
            Err(e) => skin_data(opt_text(content_type), bytes@) == Err::<Seq<char>, Seq<char>>(e@),
        },
{
    let ct = match content_type {
        Some(t) => t,
        None => "image/png".to_owned(),
    };
    if !crate::text::str_starts_with(ct.as_str(), "image/") {
        return Err(NOT_AN_IMAGE.to_owned());
    }
    if bytes.len() as u64 > MAX_SKIN_IMAGE_BYTES {
        return Err(SKIN_TOO_LARGE.to_owned());
    }
    let encoded = base64_encode(bytes);
    let mut v = chars_of("data:");
    extend_str(&mut v, ct.as_str());
    extend_str(&mut v, ";base64,");
    extend_str(&mut v, encoded.as_str());
    Ok(string_of(v.as_slice()))
}

// ---------------------------------------------------------------------------------------------
// Licence-server skins
// ---------------------------------------------------------------------------------------------

/// A skin stored on the LemiCraft licence server.
#[derive(Debug, Clone)]
pub struct LicenseSkinItem {
    pub id: i64,
    /// The Ely.by skin it mirrors, if any.
    pub elyby_id: Option<i64>,
    pub name: String,
    pub model: String,
    pub file_url: String,
    pub thumbnail_url: String,
    pub is_active: bool,
    pub added_at: Option<String>,
}

pub const NO_CURRENT_ACCOUNT: &'static str = "Не удалось определить текущий аккаунт";

/// The username of the current session, which the skin commands need.
pub fn session_username(session: Option<(String, String, String, String)>) -> (r: Result<String, String>)
    ensures
        match session {
            Some((_, u, _, _)) => r matches Ok(n) && n@ == u@,
            None => r matches Err(e) && e@ == NO_CURRENT_ACCOUNT@,
        },
{
    match session {
        Some((_, u, _, _)) => Ok(u),
        None => Err(NO_CURRENT_ACCOUNT.to_owned()),
    }
}

/// An IPv4 address carried in IPv6 (`::ffff:a.b.c.d`) is refused exactly when the IPv4
/// address is: a loopback or private target cannot slip through as IPv6.
pub proof fn mapped_address_judged_as_v4(o: [u8; 4], s: [u16; 8])
    requires
        s@[0] == 0 && s@[1] == 0 && s@[2] == 0 && s@[3] == 0 && s@[4] == 0,
        s@[5] == 0xffff,
        s@[6] == o@[0] * 256 + o@[1],
        s@[7] == o@[2] * 256 + o@[3],
    ensures
        private_or_local(IpAddress::V6(s)) == private_or_local(IpAddress::V4(o)),
{
    let a = o@[0] as int;
    let b = o@[1] as int;
    let c = o@[2] as int;
    let d = o@[3] as int;
    assert((a * 256 + b) / 256 == a && (a * 256 + b) % 256 == b) by (nonlinear_arith)
        requires
            0 <= a < 256,
            0 <= b < 256,
    ;
    assert((c * 256 + d) / 256 == c && (c * 256 + d) % 256 == d) by (nonlinear_arith)
        requires
            0 <= c < 256,
            0 <= d < 256,
    ;
    assert(mapped_octets(s@) =~= o@);
}

} // verus!
