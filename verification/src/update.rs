//! Launcher self-update: comparing version strings, deciding whether an update is offered,
//! and checking the installer's SHA-256 before it is run.
use vstd::prelude::*;

use crate::text::{after_last, all_digits, is_ascii_digit, parse_int, split_char, ascii_lower, hex_lower};

verus! {

// ---------------------------------------------------------------------------------------------
// Version comparison
// ---------------------------------------------------------------------------------------------

/// The leading run of ASCII digits of `p`.
pub open spec fn digit_run(p: Seq<char>) -> Seq<char>
    decreases p.len(),
{
    if p.len() > 0 && is_ascii_digit(p[0]) {
        seq![p[0]] + digit_run(p.skip(1))
    } else {
        Seq::<char>::empty()
    }
}

/// The number a dot-separated part stands for: its leading digits read as an `i64`,
/// or 0 when there are none or they overflow.
pub open spec fn part_value(p: Seq<char>) -> int {
    match parse_int(digit_run(p), i64::MIN as int, i64::MAX as int) {
        Some(v) => v,
        None => 0,
    }
}

/// The numbers of a version string's dot-separated parts.
pub open spec fn version_parts(v: Seq<char>) -> Seq<int> {
    split_char(v, '.').map_values(|p: Seq<char>| part_value(p))
}

/// Lexicographic comparison of part lists, a longer list winning a tie on the common prefix.
pub open spec fn parts_newer(a: Seq<int>, b: Seq<int>) -> bool
    decreases a.len(),
{
    if a.len() == 0 || b.len() == 0 {
        a.len() > b.len()
    } else if a[0] > b[0] {
        true
    } else if a[0] < b[0] {
        false
    } else {
        parts_newer(a.skip(1), b.skip(1))
    }
}

/// Whether `new_version` is newer than `current_version`.
pub open spec fn newer_version(new_version: Seq<char>, current_version: Seq<char>) -> bool {
    parts_newer(version_parts(new_version), version_parts(current_version))
}

proof fn lemma_digit_run_shape(p: Seq<char>)
    ensures
        digit_run(p).len() <= p.len(),
        digit_run(p) == p.take(digit_run(p).len() as int),
        all_digits(digit_run(p)),
        digit_run(p).len() < p.len() ==> !is_ascii_digit(p[digit_run(p).len() as int]),
    decreases p.len(),
{
    if p.len() > 0 && is_ascii_digit(p[0]) {
        lemma_digit_run_shape(p.skip(1));
        let r = digit_run(p.skip(1));
        assert(digit_run(p) == seq![p[0]] + r);
        assert(seq![p[0]] + r =~= p.take(r.len() as int + 1)) by {
            assert forall|i: int| 0 <= i < r.len() + 1 implies (seq![p[0]] + r)[i] == p.take(
                r.len() as int + 1,
            )[i] by {
                if i > 0 {
                    assert(r[i - 1] == p.skip(1).take(r.len() as int)[i - 1]);
                }
            }
        }
        assert forall|i: int| 0 <= i < digit_run(p).len() implies is_ascii_digit(
            #[trigger] digit_run(p)[i],
        ) by {
            if i > 0 {
                assert(digit_run(p)[i] == r[i - 1]);
            }
        }
        if digit_run(p).len() < p.len() {
            assert(p[digit_run(p).len() as int] == p.skip(1)[r.len() as int]);
        }
    }
}

proof fn lemma_digit_run_unique(p: Seq<char>, k: int)
    requires
        0 <= k <= p.len(),
        forall|i: int| 0 <= i < k ==> is_ascii_digit(#[trigger] p[i]),
        k < p.len() ==> !is_ascii_digit(p[k]),
    ensures
        digit_run(p) == p.take(k),
    decreases p.len(),
{
    if k > 0 {
        assert(is_ascii_digit(p[0]));
        let q = p.skip(1);
        assert forall|i: int| 0 <= i < k - 1 implies is_ascii_digit(#[trigger] q[i]) by {
            assert(q[i] == p[i + 1]);
        }
        if k - 1 < q.len() {
            assert(q[k - 1] == p[k]);
        }
        lemma_digit_run_unique(q, k - 1);
        assert(seq![p[0]] + q.take(k - 1) =~= p.take(k));
    } else {
        if p.len() > 0 {
            assert(!is_ascii_digit(p[0]));
        }
        assert(p.take(0) =~= Seq::<char>::empty());
    }
}

fn part_number(p: &[char]) -> (v: i64)
    ensures
        v as int == part_value(p@),
{
    let mut k: usize = 0;
    while k < p.len() && p[k] >= '0' && p[k] <= '9'
        invariant
            k <= p.len(),
            forall|i: int| 0 <= i < k ==> is_ascii_digit(#[trigger] p@[i]),
        decreases p.len() - k,
    {
        k = k + 1;
    }
    proof {
        lemma_digit_run_unique(p@, k as int);
    }
    let run = crate::text::slice_chars(p, 0, k);
    assert(run@ == p@.take(k as int));
    match crate::text::parse_i64_chars(run.as_slice()) {
        Some(v) => v,
        None => 0,
    }
}

/// The numbers of the dot-separated parts of `v`.
pub fn version_numbers(v: &str) -> (r: Vec<i64>)
    ensures
        r@.len() == version_parts(v@).len(),
        forall|i: int| 0 <= i < r@.len() ==> r@[i] as int == #[trigger] version_parts(v@)[i],
{
    let cs = crate::text::chars_of(v);
    let parts = crate::text::split_chars(cs.as_slice(), '.');
    let mut r: Vec<i64> = Vec::new();
    let mut i: usize = 0;
    while i < parts.len()
        invariant
            i <= parts.len(),
            parts.len() == split_char(v@, '.').len(),
            forall|j: int| 0 <= j < parts.len() ==> (#[trigger] parts[j])@ == split_char(v@, '.')[j],
            r@.len() == i,
            forall|j: int| 0 <= j < i ==> r@[j] as int == #[trigger] version_parts(v@)[j],
        decreases parts.len() - i,
    {
        let n = part_number(parts[i].as_slice());
        r.push(n);
        i = i + 1;
    }
    r
}

/// Whether `new_version` is newer than `current_version`: the dot-separated parts are compared
/// as integers from the left (each part by its leading digits, so `"2.1.0-beta"` still
/// compares), and when one list is a prefix of the other the longer one is newer.
pub fn is_newer_version(new_version: &str, current_version: &str) -> (b: bool)
    ensures
        b == newer_version(new_version@, current_version@),
{
    let a = version_numbers(new_version);
    let c = version_numbers(current_version);
    let ghost sa = version_parts(new_version@);
    let ghost sc = version_parts(current_version@);
    let n = if a.len() < c.len() { a.len() } else { c.len() };
    let mut i: usize = 0;
    assert(sa.skip(0) == sa);
    assert(sc.skip(0) == sc);
    while i < n
        invariant
            n <= a.len(),
            n <= c.len(),
            n == a.len() || n == c.len(),
            i <= n,
            a@.len() == sa.len(),
            c@.len() == sc.len(),
            forall|j: int| 0 <= j < a@.len() ==> a@[j] as int == #[trigger] sa[j],
            forall|j: int| 0 <= j < c@.len() ==> c@[j] as int == #[trigger] sc[j],
            parts_newer(sa, sc) == parts_newer(sa.skip(i as int), sc.skip(i as int)),
            sa == version_parts(new_version@),
            sc == version_parts(current_version@),
        decreases n - i,
    {
        let ghost x = sa.skip(i as int);
        let ghost y = sc.skip(i as int);
        assert(x[0] == sa[i as int]);
        assert(y[0] == sc[i as int]);
        assert(x.len() > 0 && y.len() > 0);
        if a[i] > c[i] {
            return true;
        }
        if a[i] < c[i] {
            return false;
        }
        assert(x.skip(1) == sa.skip(i + 1));
        assert(y.skip(1) == sc.skip(i + 1));
        i = i + 1;
    }
    assert(sa.skip(i as int).len() == sa.len() - i);
    assert(sc.skip(i as int).len() == sc.len() - i);
    a.len() > c.len()
}

/// Law: no version is newer than itself.
pub proof fn newer_version_irreflexive(v: Seq<char>)
    ensures
        !newer_version(v, v),
{
    lemma_parts_newer_irreflexive(version_parts(v));
}

/// Law: of two versions at most one is newer than the other.
pub proof fn newer_version_asymmetric(a: Seq<char>, b: Seq<char>)
    ensures
        newer_version(a, b) ==> !newer_version(b, a),
{
    lemma_parts_newer_asymmetric(version_parts(a), version_parts(b));
}

/// Law: being newer is transitive.
pub proof fn newer_version_transitive(a: Seq<char>, b: Seq<char>, c: Seq<char>)
    requires
        newer_version(a, b),
        newer_version(b, c),
    ensures
        newer_version(a, c),
{
    lemma_parts_newer_transitive(version_parts(a), version_parts(b), version_parts(c));
}

proof fn lemma_parts_newer_irreflexive(a: Seq<int>)
    ensures
        !parts_newer(a, a),
    decreases a.len(),
{
    if a.len() > 0 {
        lemma_parts_newer_irreflexive(a.skip(1));
    }
}

proof fn lemma_parts_newer_asymmetric(a: Seq<int>, b: Seq<int>)
    ensures
        parts_newer(a, b) ==> !parts_newer(b, a),
    decreases a.len(),
{
    if a.len() > 0 && b.len() > 0 && a[0] == b[0] {
        lemma_parts_newer_asymmetric(a.skip(1), b.skip(1));
    }
}

proof fn lemma_parts_newer_transitive(a: Seq<int>, b: Seq<int>, c: Seq<int>)
    requires
        parts_newer(a, b),
        parts_newer(b, c),
    ensures
        parts_newer(a, c),
    decreases a.len(),
{
    if a.len() > 0 && b.len() > 0 && c.len() > 0 && a[0] == b[0] && b[0] == c[0] {
        lemma_parts_newer_transitive(a.skip(1), b.skip(1), c.skip(1));
    }
}

// ---------------------------------------------------------------------------------------------
// Update offer
// ---------------------------------------------------------------------------------------------

/// What the version endpoint reports.
#[derive(Debug, Clone)]
pub struct VersionApiResponse {
    pub success: bool,
    pub version: String,
    pub download_url: String,
    pub file_size: u64,
    pub sha256: Option<String>,
    pub changelog: Vec<String>,
    pub is_required: bool,
    pub release_date: Option<String>,
}

/// An update offered to the user.
#[derive(Debug, Clone)]
pub struct UpdateInfo {
    pub version: String,
    pub download_url: String,
    pub file_size: u64,
    pub sha256: Option<String>,
    pub changelog: Vec<String>,
    pub is_required: bool,
    pub release_date: Option<String>,
}

/// The update the endpoint's answer offers to a launcher at `current_version`: one exactly when
/// the answer is successful and its version is newer, carrying the answer's fields.
pub fn update_offer(resp: VersionApiResponse, current_version: &str) -> (r: Option<UpdateInfo>)
    ensures
        r is Some <==> resp.success && newer_version(resp.version@, current_version@),
        r matches Some(u) ==> {
            &&& u.version == resp.version
            &&& u.download_url == resp.download_url
            &&& u.file_size == resp.file_size
            &&& u.sha256 == resp.sha256
            &&& u.changelog == resp.changelog
            &&& u.is_required == resp.is_required
            &&& u.release_date == resp.release_date
        },
{
    if !resp.success || !is_newer_version(resp.version.as_str(), current_version) {
        return None;
    }
    Some(
        UpdateInfo {
            version: resp.version,
            download_url: resp.download_url,
            file_size: resp.file_size,
            sha256: resp.sha256,
            changelog: resp.changelog,
            is_required: resp.is_required,
            release_date: resp.release_date,
        },
    )
}

/// The `User-Agent` the update check sends, which tells this launcher apart from the old one.
pub fn update_user_agent(current_version: &str) -> (ua: String)
    ensures
        ua@ == "LemiCraft-Launcher/"@ + current_version@ + " (Tauri)"@,
{
    let a = crate::text::concat("LemiCraft-Launcher/", current_version);
    crate::text::concat(a.as_str(), " (Tauri)")
}

/// The name the downloaded installer is saved under: the last `/`-separated segment of its
/// address, or `LemiCraft_Installer.exe` when that segment is empty.
pub open spec fn installer_name(url: Seq<char>) -> Seq<char> {
    if after_last(url, '/').len() > 0 {
        after_last(url, '/')
    } else {
        "LemiCraft_Installer.exe"@
    }
}

pub fn installer_file_name(download_url: &str) -> (n: String)
    ensures
        n@ == installer_name(download_url@),
{
    let cs = crate::text::chars_of(download_url);
    let last = crate::text::after_last_char(cs.as_slice(), '/');
    if last.len() > 0 {
        crate::text::string_of(last.as_slice())
    } else {
        "LemiCraft_Installer.exe".to_owned()
    }
}

// ---------------------------------------------------------------------------------------------
// Checksum
// ---------------------------------------------------------------------------------------------

/// The SHA-256 digest of `data`, as `sha2` computes it.
pub uninterp spec fn sha256_of(data: Seq<u8>) -> Seq<u8>;

/// `sha2::Sha256::digest`: the digest of `data`, which is 32 bytes long.
#[verifier::external_body]
fn sha256_digest(data: &[u8]) -> (d: Vec<u8>)
    ensures
        d@ == sha256_of(data@),
        d@.len() == 32,
{
    <sha2::Sha256 as sha2::Digest>::digest(data).to_vec()
}

/// Lower-case hexadecimal text of `bytes`, two digits per byte.
pub open spec fn hex_text(bytes: Seq<u8>) -> Seq<char>
    decreases bytes.len(),
{
    if bytes.len() == 0 {
        Seq::<char>::empty()
    } else {
        hex_text(bytes.drop_last()) + seq![
            hex_lower((bytes.last() / 16) as int),
            hex_lower((bytes.last() % 16) as int),
        ]
    }
}

fn hex_digit(n: u8) -> (c: char)
    requires
        n < 16,
    ensures
        c == hex_lower(n as int),
{
    if n < 10 {
        (n + 48u8) as char
    } else {
        (n - 10 + 97u8) as char
    }
}

/// Lower-case hexadecimal text of `bytes`.
pub fn hex_string(bytes: &[u8]) -> (s: String)
    ensures
        s@ == hex_text(bytes@),
{
    let mut v: Vec<char> = Vec::new();
    let mut i: usize = 0;
    while i < bytes.len()
        invariant
            i <= bytes.len(),
            v@ == hex_text(bytes@.take(i as int)),
        decreases bytes.len() - i,
    {
        let b = bytes[i];
        v.push(hex_digit(b / 16));
        v.push(hex_digit(b % 16));
        assert(bytes@.take((i + 1) as int).drop_last() == bytes@.take(i as int));
        assert(bytes@.take((i + 1) as int).last() == b);
        i = i + 1;
    }
    assert(bytes@.take(bytes.len() as int) == bytes@);
    crate::text::string_of(v.as_slice())
}

/// The SHA-256 of `data` as lower-case hex.
pub fn sha256_hex(data: &[u8]) -> (s: String)
    ensures
        s@ == hex_text(sha256_of(data@)),
{
    let d = sha256_digest(data);
    hex_string(d.as_slice())
}

/// ASCII-case-insensitive equality (`str::eq_ignore_ascii_case`).
pub open spec fn eq_ignore_ascii_case(a: Seq<char>, b: Seq<char>) -> bool {
    a.len() == b.len() && forall|i: int| 0 <= i < a.len() ==> ascii_lower(#[trigger] a[i]) == ascii_lower(b[i])
}

fn lower_char(c: char) -> (r: char)
    ensures
        r == ascii_lower(c),
{
    if c >= 'A' && c <= 'Z' {
        ((c as u8) + 32) as char
    } else {
        c
    }
}

pub fn str_eq_ignore_ascii_case(a: &str, b: &str) -> (r: bool)
    ensures
        r == eq_ignore_ascii_case(a@, b@),
{
    let av = crate::text::chars_of(a);
    let bv = crate::text::chars_of(b);
    if av.len() != bv.len() {
        return false;
    }
    let mut i: usize = 0;
    while i < av.len()
        invariant
            av@ == a@,
            bv@ == b@,
            av.len() == bv.len(),
            i <= av.len(),
            forall|k: int| 0 <= k < i ==> ascii_lower(#[trigger] av@[k]) == ascii_lower(bv@[k]),
        decreases av.len() - i,
    {
        if lower_char(av[i]) != lower_char(bv[i]) {
            return false;
        }
        i = i + 1;
    }
    true
}

pub const MISSING_CHECKSUM_MESSAGE: &'static str = "Сервер не прислал контрольную сумму (SHA-256) для обновления — установка отменена в целях безопасности";

pub const CHECKSUM_MISMATCH_MESSAGE: &'static str = "Проверка целостности скачанного файла не прошла (SHA-256 не совпадает)";

/// The verdict on a downloaded installer whose SHA-256 is `actual_hex`: refused when the
/// server sent no checksum (or an empty one), refused when it differs ignoring ASCII case,
/// accepted otherwise.
pub open spec fn checksum_verdict(expected: Option<Seq<char>>, actual: Seq<char>) -> Result<(), Seq<char>> {
    match expected {
        None => Err(MISSING_CHECKSUM_MESSAGE@),
        Some(e) => if e.len() == 0 {
            Err(MISSING_CHECKSUM_MESSAGE@)
        } else if !eq_ignore_ascii_case(actual, e) {
            Err(CHECKSUM_MISMATCH_MESSAGE@)
        } else {
            Ok(())
        },
    }
}

pub open spec fn opt_view(o: Option<String>) -> Option<Seq<char>> {
    match o {
        Some(s) => Some(s@),
        None => None,
    }
}

pub open spec fn unit_result_view(r: Result<(), String>) -> Result<(), Seq<char>> {
    match r {
        Ok(()) => Ok(()),
        Err(e) => Err(e@),
    }
}

/// Checks the installer's SHA-256 against the one the server announced.
pub fn verify_update_checksum(expected: &Option<String>, actual_hex: &str) -> (r: Result<(), String>)
    ensures
        unit_result_view(r) == checksum_verdict(opt_view(*expected), actual_hex@),
{
    match expected {
        None => Err(MISSING_CHECKSUM_MESSAGE.to_owned()),
        Some(e) => {
            if e.as_str().is_empty() {
                Err(MISSING_CHECKSUM_MESSAGE.to_owned())
            } else if !str_eq_ignore_ascii_case(actual_hex, e.as_str()) {
                Err(CHECKSUM_MISMATCH_MESSAGE.to_owned())
            } else {
                Ok(())
            }
        },
    }
}

} // verus!
