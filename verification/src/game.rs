//! Launching the game: where its files live, the JVM and game arguments it is started with,
//! the retry policy of the installer, and the filter that turns the game's log4j XML output
//! into readable lines.
use vstd::prelude::*;

use crate::mods::path_view;
use crate::net::opt_text;
use crate::text::{
    char_pos, chars_of, find, find_chars, is_ascii_digit, parse_i64_chars, parse_int, slice_chars,
    starts_with, str_starts_with, string_of, trim, trim_end, trim_end_chars, trim_start,
};

verus! {

// ---------------------------------------------------------------------------------------------
// Locations
// ---------------------------------------------------------------------------------------------

/// The game directory in use: the configured one when it is set and not blank, else `default_dir`.
pub open spec fn chosen_dir(configured: Option<Seq<char>>, default_dir: Seq<char>) -> Seq<char> {
    match configured {
        Some(p) => if trim(p).len() > 0 {
            p
        } else {
            default_dir
        },
        None => default_dir,
    }
}

/// The directory the game is installed into and run from.
pub fn minecraft_dir(configured: &Option<String>, default_dir: &str) -> (d: String)
    ensures
        d@ == chosen_dir(
            match configured {
                Some(p) => Some(p@),
                None => None,
            },
            default_dir@,
        ),
{
    match configured {
        Some(p) => {
            let cs = chars_of(p.as_str());
            let t = crate::text::trim_chars(cs.as_slice());
            if t.len() > 0 {
                p.clone()
            } else {
                default_dir.to_owned()
            }
        },
        None => default_dir.to_owned(),
    }
}

/// The log the running game writes: `<minecraft dir>/logs/latest.log`.
pub fn current_log_path(minecraft_dir: &str) -> (p: Vec<String>)
    ensures
        path_view(p@) == seq![minecraft_dir@, "logs"@, "latest.log"@],
{
    let mut p: Vec<String> = Vec::new();
    p.push(minecraft_dir.to_owned());
    p.push("logs".to_owned());
    p.push("latest.log".to_owned());
    assert(path_view(p@) =~= seq![minecraft_dir@, "logs"@, "latest.log"@]);
    p
}

/// Where the authlib-injector agent is kept: `<launcher dir>/authlib-injector.jar`.
pub fn authlib_injector_path(game_dir: &str) -> (p: Vec<String>)
    ensures
        path_view(p@) == seq![game_dir@, "authlib-injector.jar"@],
{
    crate::mods::join_path(game_dir, "authlib-injector.jar")
}

/// The name of the installed Fabric version: `fabric-<minecraft>-<loader>`.
pub open spec fn version_name() -> Seq<char> {
    "fabric-"@ + crate::config::MC_VERSION@ + "-"@ + crate::config::FABRIC_LOADER@
}

pub fn installed_version_name() -> (s: String)
    ensures
        s@ == version_name(),
{
    let a = crate::text::concat("fabric-", crate::config::MC_VERSION);
    let b = crate::text::concat(a.as_str(), "-");
    crate::text::concat(b.as_str(), crate::config::FABRIC_LOADER)
}

/// The version manifest whose presence marks the game as installed:
/// `<minecraft dir>/versions/<name>/<name>.json`.
pub fn version_manifest_path(minecraft_dir: &str) -> (p: Vec<String>)
    ensures
        path_view(p@) == seq![
            minecraft_dir@,
            "versions"@,
            version_name(),
            version_name() + ".json"@,
        ],
{
    let name = installed_version_name();
    let file = crate::text::concat(name.as_str(), ".json");
    let mut p: Vec<String> = Vec::new();
    p.push(minecraft_dir.to_owned());
    p.push("versions".to_owned());
    p.push(name);
    p.push(file);
    assert(path_view(p@) =~= seq![
        minecraft_dir@,
        "versions"@,
        version_name(),
        version_name() + ".json"@,
    ]);
    p
}

// ---------------------------------------------------------------------------------------------
// The authlib-injector agent
// ---------------------------------------------------------------------------------------------

/// A jar is a zip archive: more than four bytes, starting with `PK`. A truncated or partial
/// download fails this test.
pub open spec fn valid_jar(bytes: Seq<u8>) -> bool {
    bytes.len() > 4 && bytes[0] == 0x50u8 && bytes[1] == 0x4bu8
}

pub fn is_valid_jar(bytes: &[u8]) -> (b: bool)
    ensures
        b == valid_jar(bytes@),
{
    bytes.len() > 4 && bytes[0] == 0x50u8 && bytes[1] == 0x4bu8
}

pub const AUTHLIB_CORRUPT: &'static str =
    "Скачанный authlib-injector.jar повреждён (не является корректным jar-файлом)";

pub const AUTHLIB_ASSET_MISSING: &'static str =
    "Не удалось найти authlib-injector.jar в последнем релизе на GitHub";

/// Accepts a downloaded agent only when it is a jar.
pub fn check_downloaded_authlib(bytes: &[u8]) -> (r: Result<(), String>)
    ensures
        r is Ok <==> valid_jar(bytes@),
        r matches Err(e) ==> e@ == AUTHLIB_CORRUPT@,
{
    if is_valid_jar(bytes) {
        Ok(())
    } else {
        Err(AUTHLIB_CORRUPT.to_owned())
    }
}

/// A release tag without its leading `v`, if it has one.
pub open spec fn short_tag(tag: Seq<char>) -> Seq<char> {
    if tag.len() > 0 && tag[0] == 'v' {
        tag.skip(1)
    } else {
        tag
    }
}

pub open spec fn authlib_url(tag: Seq<char>) -> Seq<char> {
    "https://github.com/yushijinhun/authlib-injector/releases/download/"@ + tag
        + "/authlib-injector-"@ + short_tag(tag) + ".jar"@
}

/// The direct download address of the agent of release `tag`.
pub fn authlib_direct_url(tag: &str) -> (u: String)
    ensures
        u@ == authlib_url(tag@),
{
    let cs = chars_of(tag);
    let short = if cs.len() > 0 && cs[0] == 'v' {
        slice_chars(cs.as_slice(), 1, cs.len())
    } else {
        slice_chars(cs.as_slice(), 0, cs.len())
    };
    assert(cs@.subrange(1, cs@.len() as int) == cs@.skip(1));
    assert(cs@.subrange(0, cs@.len() as int) == cs@);
    let short_s = string_of(short.as_slice());
    let a = crate::text::concat(
        "https://github.com/yushijinhun/authlib-injector/releases/download/",
        tag,
    );
    let b = crate::text::concat(a.as_str(), "/authlib-injector-");
    let c = crate::text::concat(b.as_str(), short_s.as_str());
    crate::text::concat(c.as_str(), ".jar")
}

/// An asset of a release that is the agent: its name mentions `authlib-injector` and ends in `.jar`.
pub open spec fn is_authlib_asset(name: Seq<char>) -> bool {
    crate::text::contains(name, "authlib-injector"@) && crate::text::ends_with(name, ".jar"@)
}

/// Index of the first agent among the asset names of a release.
pub fn pick_authlib_asset(names: &Vec<String>) -> (r: Option<usize>)
    ensures
        match r {
            Some(i) => i < names.len() && is_authlib_asset(names@[i as int]@) && forall|j: int|
                0 <= j < i ==> !is_authlib_asset(#[trigger] names@[j]@),
            None => forall|j: int| 0 <= j < names.len() ==> !is_authlib_asset(#[trigger] names@[j]@),
        },
{
    let mut i: usize = 0;
    while i < names.len()
        invariant
            i <= names.len(),
            forall|j: int| 0 <= j < i ==> !is_authlib_asset(#[trigger] names@[j]@),
        decreases names.len() - i,
    {
        let n = names[i].as_str();
        if crate::text::str_contains(n, "authlib-injector") && crate::text::str_ends_with(n, ".jar") {
            return Some(i);
        }
        i = i + 1;
    }
    None
}

/// The JVM option that loads the agent from `path` against Ely.by.
pub fn javaagent_arg(path: &str) -> (a: String)
    ensures
        a@ == "-javaagent:"@ + path@ + "=ely.by"@,
{
    let s = crate::text::concat("-javaagent:", path);
    crate::text::concat(s.as_str(), "=ely.by")
}

// ---------------------------------------------------------------------------------------------
// The game's log4j output
// ---------------------------------------------------------------------------------------------

/// The value of the XML attribute `name="..."` at its first occurrence in `xml`.
pub open spec fn attr_value(xml: Seq<char>, name: Seq<char>) -> Option<Seq<char>> {
    let needle = name + seq!['=', '"'];
    match find(xml, needle) {
        None => None,
        Some(i) => {
            let rest = xml.skip(i + needle.len());
            match char_pos(rest, '"') {
                None => None,
                Some(l) => Some(rest.take(l)),
            }
        },
    }
}

/// The value of the attribute `name` in `xml`, if it is there and closed.
pub fn xml_attr(xml: &str, name: &str) -> (r: Option<String>)
    ensures
        opt_text(r) == attr_value(xml@, name@),
{
    let xs = chars_of(xml);
    let mut needle = chars_of(name);
    needle.push('=');
    needle.push('"');
    assert(needle@ =~= name@ + seq!['=', '"']);
    match find_chars(xs.as_slice(), needle.as_slice()) {
        None => None,
        Some(i) => {
            proof {
                crate::text::lemma_find_in_bounds(xs@, needle@);
            }
            assert(i + needle.len() <= xs.len());
            let start = i + needle.len();
            let rest = slice_chars(xs.as_slice(), start, xs.len());
            assert(rest@ == xs@.skip(start as int));
            let mut quote: Vec<char> = Vec::new();
            quote.push('"');
            assert(quote@ =~= seq!['"']);
            match find_chars(rest.as_slice(), quote.as_slice()) {
                None => None,
                Some(l) => {
                    proof {
                        crate::text::lemma_find_in_bounds(rest@, quote@);
                    }
                    let v = slice_chars(rest.as_slice(), 0, l);
                    assert(v@ == rest@.take(l as int));
                    Some(string_of(v.as_slice()))
                },
            }
        },
    }
}

/// The text of the event's `<![CDATA[...]]>` section with trailing whitespace removed, or
/// nothing when the section is missing or unclosed.
pub open spec fn cdata_message(xml: Seq<char>) -> Seq<char> {
    match find(xml, "<![CDATA["@) {
        None => Seq::<char>::empty(),
        Some(start) => {
            let rest = xml.skip(start + "<![CDATA["@.len());
            match find(rest, "]]>"@) {
                None => Seq::<char>::empty(),
                Some(l) => trim_end(rest.take(l)),
            }
        },
    }
}

/// `matches_at` read in a suffix is `matches_at` in the whole, shifted.
proof fn lemma_matches_in_skip(s: Seq<char>, p: Seq<char>, o: int, k: int)
    requires
        0 <= o <= s.len(),
        0 <= k,
    ensures
        crate::text::matches_at(s.skip(o), p, k) <==> crate::text::matches_at(s, p, o + k),
{
    if k + p.len() <= s.len() - o {
        assert(s.skip(o).subrange(k, k + p.len()) =~= s.subrange(o + k, o + k + p.len()));
    }
}

/// The message of a log4j event is the text between its first `<![CDATA[` and the first `]]>`
/// after it, trailing whitespace trimmed: any `]` or `]]` inside the message is kept.
pub proof fn cdata_message_runs_to_first_close(xml: Seq<char>, p: int, q: int)
    requires
        crate::text::matches_at(xml, "<![CDATA["@, p),
        forall|k: int| 0 <= k < p ==> !#[trigger] crate::text::matches_at(xml, "<![CDATA["@, k),
        p + "<![CDATA["@.len() <= q,
        crate::text::matches_at(xml, "]]>"@, q),
        forall|k: int|
            p + "<![CDATA["@.len() <= k < q ==> !#[trigger] crate::text::matches_at(xml, "]]>"@, k),
    ensures
        cdata_message(xml) == trim_end(xml.subrange(p + "<![CDATA["@.len(), q)),
{
    let open = "<![CDATA["@;
    let close = "]]>"@;
    crate::text::lemma_find_from(xml, open, 0);
    assert(find(xml, open) == Some(p));
    let o = p + open.len();
    let rest = xml.skip(o);
    crate::text::lemma_find_from(rest, close, 0);
    lemma_matches_in_skip(xml, close, o, q - o);
    match find(rest, close) {
        Some(l) => {
            // an earlier close would be one in the whole text before `q`; a later one would
            // pass over the close at `q`
            lemma_matches_in_skip(xml, close, o, l);
            assert(l == q - o);
            assert(rest.take(l) =~= xml.subrange(o, q));
        },
        None => {},
    }
}

/// One readable line for a buffered `<log4j:Event>` block, with `clock` as its time of day:
/// `[clock] [thread/level]: message`, where a missing thread reads `?` and a missing level `INFO`.
pub open spec fn log4j_line(xml: Seq<char>, clock: Option<Seq<char>>) -> Seq<char> {
    let thread = match attr_value(xml, "thread"@) {
        Some(t) => t,
        None => "?"@,
    };
    let level = match attr_value(xml, "level"@) {
        Some(l) => l,
        None => "INFO"@,
    };
    let body = seq!['['] + thread + seq!['/'] + level + "]: "@ + cdata_message(xml);
    match clock {
        Some(t) => seq!['['] + t + "] "@ + body,
        None => body,
    }
}

/// The event's `timestamp` attribute, read as milliseconds since the epoch.
pub open spec fn event_millis(xml: Seq<char>) -> Option<int> {
    match attr_value(xml, "timestamp"@) {
        Some(raw) => parse_int(raw, i64::MIN as int, i64::MAX as int),
        None => None,
    }
}

/// Text of the form `HH:MM:SS`.
pub open spec fn is_clock_text(t: Seq<char>) -> bool {
    &&& t.len() == 8
    &&& t[2] == ':' && t[5] == ':'
    &&& is_ascii_digit(t[0]) && is_ascii_digit(t[1])
    &&& is_ascii_digit(t[3]) && is_ascii_digit(t[4])
    &&& is_ascii_digit(t[6]) && is_ascii_digit(t[7])
}

/// Milliseconds since the epoch that chrono turns into a date-time for certain: its dates run
/// from the year -262143 to the year 262142, well beyond 8 * 10^15 ms either side of the epoch.
pub open spec fn has_date_time(millis: int) -> bool {
    -8_000_000_000_000_000 <= millis <= 8_000_000_000_000_000
}

/// What the local clock reading of an event can be: absent when the event carries no readable
/// timestamp; a time of day when the timestamp lies within chrono's dates; and beyond them
/// either absent or a time of day.
pub open spec fn clock_outcome(xml: Seq<char>, clock: Option<Seq<char>>) -> bool {
    match event_millis(xml) {
        None => clock is None,
        Some(ms) => match clock {
            Some(t) => is_clock_text(t),
            None => !has_date_time(ms),
        },
    }
}

/// `out` is the line for the event `xml` under some reading of the local clock it admits.
pub open spec fn rendered_event(xml: Seq<char>, out: Seq<char>) -> bool {
    exists|clock: Option<Seq<char>>| clock_outcome(xml, clock) && out == #[trigger] log4j_line(xml, clock)
}

/// `chrono::DateTime::from_timestamp_millis(millis)`, moved into the machine's local time zone
/// and formatted with `%H:%M:%S`; `None` where chrono has no date-time for `millis`, which its
/// documentation gives only for milliseconds out of its range (about 262,000 years either side
/// of the common era). So a time comes back for every `millis` within `has_date_time`. The time
/// of day itself depends on the local time zone, so only its shape is stated here.
#[verifier::external_body]
fn local_clock_text(millis: i64) -> (r: Option<String>)
    ensures
        r matches Some(t) ==> is_clock_text(t@),
        has_date_time(millis as int) ==> r is Some,
{
    match chrono::DateTime::from_timestamp_millis(millis) {
        Some(dt) => Some(dt.with_timezone(&chrono::Local).format("%H:%M:%S").to_string()),
        None => None,
    }
}

/// The readable line for the event `xml`, given the local time of day of its timestamp.
pub fn log4j_line_text(xml: &str, clock: Option<String>) -> (s: String)
    ensures
        s@ == log4j_line(xml@, opt_text(clock)),
{
    let thread = match xml_attr(xml, "thread") {
        Some(t) => t,
        None => "?".to_owned(),
    };
    let level = match xml_attr(xml, "level") {
        Some(l) => l,
        None => "INFO".to_owned(),
    };
    let message = cdata_text(xml);
    let mut out: Vec<char> = Vec::new();
    match &clock {
        Some(t) => {
            out.push('[');
            crate::text::extend_str(&mut out, t.as_str());
            crate::text::extend_str(&mut out, "] ");
        },
        None => {},
    }
    let ghost prefix = out@;
    out.push('[');
    crate::text::extend_str(&mut out, thread.as_str());
    out.push('/');
    crate::text::extend_str(&mut out, level.as_str());
    crate::text::extend_str(&mut out, "]: ");
    crate::text::extend_chars(&mut out, message.as_slice());
    let ghost body = seq!['['] + thread@ + seq!['/'] + level@ + "]: "@ + message@;
    assert(out@ =~= prefix + body);
    proof {
        match clock {
            Some(t) => {
                assert(prefix =~= seq!['['] + t@ + "] "@);
            },
            None => {
                assert(prefix =~= Seq::<char>::empty());
            },
        }
    }
    string_of(out.as_slice())
}

/// The message of the event `xml`.
fn cdata_text(xml: &str) -> (m: Vec<char>)
    ensures
        m@ == cdata_message(xml@),
{
    let xs = chars_of(xml);
    let open = chars_of("<![CDATA[");
    match find_chars(xs.as_slice(), open.as_slice()) {
        None => Vec::new(),
        Some(start) => {
            proof {
                crate::text::lemma_find_in_bounds(xs@, open@);
            }
            assert(start + open.len() <= xs.len());
            let cs = start + open.len();
            let rest = slice_chars(xs.as_slice(), cs, xs.len());
            assert(rest@ == xs@.skip(cs as int));
            let close = chars_of("]]>");
            match find_chars(rest.as_slice(), close.as_slice()) {
                None => Vec::new(),
                Some(l) => {
                    proof {
                        crate::text::lemma_find_in_bounds(rest@, close@);
                    }
                    let v = slice_chars(rest.as_slice(), 0, l);
                    assert(v@ == rest@.take(l as int));
                    trim_end_chars(v.as_slice())
                },
            }
        },
    }
}

/// One readable line for a buffered `<log4j:Event>` block, stamped with the local time of day
/// of the event's own timestamp; an event without a readable timestamp gets no stamp.
pub fn format_log4j_event(xml: &str) -> (s: String)
    ensures
        rendered_event(xml@, s@),
{
    let clock = match xml_attr(xml, "timestamp") {
        Some(raw) => {
            let rc = chars_of(raw.as_str());
            match parse_i64_chars(rc.as_slice()) {
                Some(ms) => local_clock_text(ms),
                None => None,
            }
        },
        None => None,
    };
    assert(clock_outcome(xml@, opt_text(clock)));
    let s = log4j_line_text(xml, clock);
    s
}

/// Collapses the game's `<log4j:Event>` XML blocks, which arrive a line at a time, into one
/// readable line each; other lines pass through unchanged.
pub struct XmlLogFilter {
    pub buffer: String,
    pub in_block: bool,
}

/// A line that opens an event block.
pub open spec fn opens_event(line: Seq<char>) -> bool {
    starts_with(trim_start(line), "<log4j:Event"@)
}

/// A line that closes an event block.
pub open spec fn closes_event(line: Seq<char>) -> bool {
    starts_with(trim_start(line), "</log4j:Event>"@)
}

impl XmlLogFilter {
    pub fn new() -> (f: Self)
        ensures
            f.buffer@ == Seq::<char>::empty(),
            !f.in_block,
    {
        XmlLogFilter { buffer: String::new(), in_block: false }
    }

    /// Takes the next line of output and returns what is to be shown for it, if anything.
    pub fn feed(&mut self, line: &str) -> (r: Option<String>)
        ensures
            opens_event(line@) ==> {
                &&& final(self).in_block
                &&& final(self).buffer@ == line@
                &&& r is None
            },
            !opens_event(line@) && old(self).in_block ==> {
                &&& final(self).buffer@ == old(self).buffer@ + seq!['\n'] + line@
                &&& final(self).in_block == !closes_event(line@)
                &&& closes_event(line@) ==> (r matches Some(out) && rendered_event(
                    final(self).buffer@,
                    out@,
                ))
                &&& !closes_event(line@) ==> r is None
            },
            !opens_event(line@) && !old(self).in_block ==> {
                &&& final(self).buffer@ == old(self).buffer@
                &&& !final(self).in_block
                &&& opt_text(r) == Some(line@)
            },
    {
        let lc = chars_of(line);
        let trimmed = crate::text::trim_start_chars(lc.as_slice());
        let t = string_of(trimmed.as_slice());
        if str_starts_with(t.as_str(), "<log4j:Event") {
            self.in_block = true;
            self.buffer = line.to_owned();
            return None;
        }
        if self.in_block {
            let mut b = chars_of(self.buffer.as_str());
            b.push('\n');
            crate::text::extend_str(&mut b, line);
            self.buffer = string_of(b.as_slice());
            if str_starts_with(t.as_str(), "</log4j:Event>") {
                self.in_block = false;
                let out = format_log4j_event(self.buffer.as_str());
                return Some(out);
            }
            return None;
        }
        Some(line.to_owned())
    }
}

// ---------------------------------------------------------------------------------------------
// Game and JVM arguments
// ---------------------------------------------------------------------------------------------

pub open spec fn texts(v: Seq<String>) -> Seq<Seq<char>> {
    v.map_values(|s: String| s@)
}

/// The first index at or after `k` whose argument is `x`.
pub open spec fn position_from(args: Seq<Seq<char>>, x: Seq<char>, k: int) -> Option<int>
    decreases args.len() - k,
{
    if k < 0 || k >= args.len() {
        None
    } else if args[k] == x {
        Some(k)
    } else {
        position_from(args, x, k + 1)
    }
}

/// `args` with the argument after the first `flag` replaced by `value`, when there is one.
pub open spec fn patch_flag(args: Seq<Seq<char>>, flag: Seq<char>, value: Seq<char>) -> Seq<Seq<char>> {
    match position_from(args, flag, 0) {
        Some(p) => if p + 1 < args.len() {
            args.update(p + 1, value)
        } else {
            args
        },
        None => args,
    }
}

/// The game arguments of an offline session turned into those of the real one: the access
/// token after `--accessToken`, then `msa` after `--userType`.
pub open spec fn real_session_args(args: Seq<Seq<char>>, token: Seq<char>) -> Seq<Seq<char>> {
    patch_flag(patch_flag(args, "--accessToken"@, token), "--userType"@, "msa"@)
}

proof fn lemma_position_from(args: Seq<Seq<char>>, x: Seq<char>, k: int)
    requires
        0 <= k,
    ensures
        position_from(args, x, k) matches Some(p) ==> k <= p < args.len() && args[p] == x,
    decreases args.len() - k,
{
    if k < args.len() && args[k] != x {
        lemma_position_from(args, x, k + 1);
    }
}

fn patch_flag_in(args: &mut Vec<String>, flag: &str, value: &str)
    ensures
        texts(final(args)@) == patch_flag(texts(old(args)@), flag@, value@),
        final(args).len() == old(args).len(),
{
    let ghost a = texts(args@);
    let mut i: usize = 0;
    while i < args.len()
        invariant
            i <= args.len(),
            args@ == old(args)@,
            a == texts(old(args)@),
            position_from(a, flag@, 0) == position_from(a, flag@, i as int),
        decreases args.len() - i,
    {
        if crate::text::str_eq(args[i].as_str(), flag) {
            proof {
                assert(a[i as int] == args@[i as int]@);
            }
            if i + 1 < args.len() {
                args.set(i + 1, value.to_owned());
                assert(texts(args@) =~= a.update(i + 1, value@));
            }
            return;
        }
        assert(a[i as int] == args@[i as int]@);
        i = i + 1;
    }
}

/// Patches the real access token and account type into the game arguments.
pub fn patch_real_session_args(game_args: &mut Vec<String>, real_access_token: &str)
    ensures
        texts(final(game_args)@) == real_session_args(texts(old(game_args)@), real_access_token@),
{
    patch_flag_in(game_args, "--accessToken", real_access_token);
    patch_flag_in(game_args, "--userType", "msa");
}

/// The JVM arguments the game is started with: the agent first when there is one, then those
/// the installer produced, the heap limits, and the user's own options split at whitespace.
pub open spec fn launch_jvm_args(
    base: Seq<Seq<char>>,
    agent: Option<Seq<char>>,
    ram_gb: u32,
    extra: Seq<char>,
) -> Seq<Seq<char>> {
    let with_agent = match agent {
        Some(path) => seq!["-javaagent:"@ + path + "=ely.by"@] + base,
        None => base,
    };
    let min_gb: u32 = if ram_gb < 2 {
        ram_gb
    } else {
        2
    };
    with_agent.push("-Xmx"@ + crate::text::decimal(ram_gb as nat) + "G"@).push(
        "-Xms"@ + crate::text::decimal(min_gb as nat) + "G"@,
    ) + crate::text::words(extra)
}

fn heap_arg(prefix: &str, gb: u32) -> (s: String)
    ensures
        s@ == prefix@ + crate::text::decimal(gb as nat) + "G"@,
{
    let mut v = chars_of(prefix);
    let d = crate::text::u64_text(gb as u64);
    crate::text::extend_chars(&mut v, d.as_slice());
    crate::text::extend_str(&mut v, "G");
    string_of(v.as_slice())
}

/// Completes the JVM arguments of the installed game before it is started.
pub fn jvm_launch_args(base: Vec<String>, agent_path: Option<&str>, ram_gb: u32, extra: &str) -> (r:
    Vec<String>)
    ensures
        texts(r@) == launch_jvm_args(
            texts(base@),
            match agent_path {
                Some(p) => Some(p@),
                None => None,
            },
            ram_gb,
            extra@,
        ),
{
    let mut args: Vec<String> = Vec::new();
    match agent_path {
        Some(p) => {
            args.push(javaagent_arg(p));
        },
        None => {},
    }
    let ghost head = texts(args@);
    let mut i: usize = 0;
    while i < base.len()
        invariant
            i <= base.len(),
            texts(args@) == head + texts(base@).take(i as int),
        decreases base.len() - i,
    {
        let ghost prev = args@;
        args.push(base[i].clone());
        assert(texts(args@) =~= texts(prev).push(base@[i as int]@));
        i = i + 1;
        assert(texts(base@).take(i as int) =~= texts(base@).take(i - 1).push(base@[i - 1]@));
    }
    assert(texts(base@).take(base.len() as int) =~= texts(base@));
    let min_gb: u32 = if ram_gb < 2 {
        ram_gb
    } else {
        2
    };
    args.push(heap_arg("-Xmx", ram_gb));
    args.push(heap_arg("-Xms", min_gb));
    let ghost before = texts(args@);
    let words = crate::text::split_ws(extra);
    let mut j: usize = 0;
    while j < words.len()
        invariant
            j <= words.len(),
            texts(args@) == before + texts(words@).take(j as int),
        decreases words.len() - j,
    {
        let ghost prev = args@;
        args.push(words[j].clone());
        assert(texts(args@) =~= texts(prev).push(words@[j as int]@));
        j = j + 1;
        assert(texts(words@).take(j as int) =~= texts(words@).take(j - 1).push(words@[j - 1]@));
    }
    assert(texts(words@).take(words.len() as int) =~= texts(words@));
    proof {
        match agent_path {
            Some(p) => {
                assert(head =~= seq!["-javaagent:"@ + p@ + "=ely.by"@]);
            },
            None => {
                assert(head =~= Seq::<Seq<char>>::empty());
            },
        }
    }
    args
}

// ---------------------------------------------------------------------------------------------
// Installing and running
// ---------------------------------------------------------------------------------------------

/// How many times an install is tried: a parallel download of thousands of files routinely
/// drops a few, and a second run only fetches what is missing.
pub const MAX_INSTALL_ATTEMPTS: u32 = 4;

pub open spec fn install_failure_text(last_error: Seq<char>) -> Seq<char> {
    "Не удалось установить игру после "@ + crate::text::decimal(MAX_INSTALL_ATTEMPTS as nat)
        + " попыток: "@ + last_error
}

/// The error reported when every attempt failed, quoting the last failure.
pub fn install_failure_message(last_error: &str) -> (m: String)
    ensures
        m@ == install_failure_text(last_error@),
{
    let mut v = chars_of("Не удалось установить игру после ");
    let d = crate::text::u64_text(MAX_INSTALL_ATTEMPTS as u64);
    crate::text::extend_chars(&mut v, d.as_slice());
    crate::text::extend_str(&mut v, " попыток: ");
    crate::text::extend_str(&mut v, last_error);
    string_of(v.as_slice())
}

/// What follows an install attempt.
#[derive(Debug)]
pub enum InstallStep {
    /// The game is installed: start it.
    Launch,
    /// Try again; the attempt with this number is announced before it starts.
    Retry { attempt: u32 },
    /// Stop and report this error.
    GiveUp { message: String },
}

/// Decides what follows attempt number `attempt` (counted from 1) given its outcome.
pub fn after_install_attempt(attempt: u32, outcome: Result<(), String>) -> (step: InstallStep)
    requires
        1 <= attempt <= MAX_INSTALL_ATTEMPTS,
    ensures
        outcome is Ok ==> step is Launch,
        outcome matches Err(e) ==> if attempt < MAX_INSTALL_ATTEMPTS {
            step == InstallStep::Retry { attempt: (attempt + 1) as u32 }
        } else {
            step matches InstallStep::GiveUp { message } && message@ == install_failure_text(e@)
        },
{
    match outcome {
        Ok(()) => InstallStep::Launch,
        Err(e) => {
            if attempt < MAX_INSTALL_ATTEMPTS {
                InstallStep::Retry { attempt: attempt + 1 }
            } else {
                InstallStep::GiveUp { message: install_failure_message(e.as_str()) }
            }
        },
    }
}

/// The multiplayer server the game joins on start when auto-connect is on.
pub fn quick_play_target(auto_connect: bool) -> (t: Option<(String, u16)>)
    ensures
        auto_connect ==> (t matches Some((host, port)) && host@ == crate::config::SERVER_SRV_DOMAIN@
            && port == crate::config::SERVER_PORT),
        !auto_connect ==> t is None,
{
    if auto_connect {
        Some((crate::config::SERVER_SRV_DOMAIN.to_owned(), crate::config::SERVER_PORT))
    } else {
        None
    }
}

/// What the launcher window does once the game has started.
#[derive(Debug, Clone, Copy, PartialEq, Eq, Structural)]
pub enum LaunchWindow {
    /// Quit the launcher.
    Exit,
    /// Hide the main window until the game ends.
    Hide,
    /// Leave it as it is.
    Keep,
}

/// The window behaviour chosen in the settings: `close`, `hide`, anything else keeps it.
pub fn launch_window_action(on_launch: &str) -> (a: LaunchWindow)
    ensures
        on_launch@ == "close"@ ==> a == LaunchWindow::Exit,
        on_launch@ == "hide"@ ==> a == LaunchWindow::Hide,
        on_launch@ != "close"@ && on_launch@ != "hide"@ ==> a == LaunchWindow::Keep,
{
    proof {
        reveal_strlit("close");
        reveal_strlit("hide");
        assert("hide"@.len() != "close"@.len());
    }
    if crate::text::str_eq(on_launch, "close") {
        LaunchWindow::Exit
    } else if crate::text::str_eq(on_launch, "hide") {
        LaunchWindow::Hide
    } else {
        LaunchWindow::Keep
    }
}

/// Whether the main window is shown again when the game ends: only when it was hidden.
pub fn restores_window(on_launch: &str) -> (b: bool)
    ensures
        b == (on_launch@ == "hide"@),
{
    crate::text::str_eq(on_launch, "hide")
}

/// What a poll of the running game found.
#[derive(Debug, Clone, Copy, PartialEq, Eq, Structural)]
pub enum WaitOutcome {
    /// The process is still running.
    Running,
    /// The process ended with this status.
    Exited { success: bool, code: Option<i32> },
    /// Its status could not be read.
    Failed,
    /// The process slot is empty: the game was stopped from the launcher.
    Gone,
}

/// What the watcher of the game process does next.
#[derive(Debug, Clone, Copy, PartialEq, Eq, Structural)]
pub enum WatchStep {
    /// Poll again later.
    KeepWaiting,
    /// The game is over: clear the slot, announce the stop, report a crash with its exit code
    /// when there was one, and restore the window.
    Ended { crash: Option<Option<i32>> },
    /// Stop watching without announcing anything.
    Quit,
}

/// The watcher's reaction to each poll result.
pub open spec fn watch_result(outcome: WaitOutcome) -> WatchStep {
    match outcome {
        WaitOutcome::Running => WatchStep::KeepWaiting,
        WaitOutcome::Exited { success, code } => WatchStep::Ended {
            crash: if success {
                None
            } else {
                Some(code)
            },
        },
        WaitOutcome::Failed => WatchStep::Ended { crash: None },
        WaitOutcome::Gone => WatchStep::Quit,
    }
}

pub fn watch_step(outcome: WaitOutcome) -> (step: WatchStep)
    ensures
        step == watch_result(outcome),
{
    match outcome {
        WaitOutcome::Running => WatchStep::KeepWaiting,
        WaitOutcome::Exited { success, code } => WatchStep::Ended {
            crash: if success {
                None
            } else {
                Some(code)
            },
        },
        WaitOutcome::Failed => WatchStep::Ended { crash: None },
        WaitOutcome::Gone => WatchStep::Quit,
    }
}

} // verus!
