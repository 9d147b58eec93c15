//! News feed: turning the API's items into what the launcher shows, including the plain-text
//! excerpt of an item's Markdown content.
use vstd::prelude::*;

use crate::text::{join, lines_of, split_char, starts_with, strip_cr, trim, trim_end, trim_start};

verus! {

/// Length of an item's excerpt, in characters.
pub const EXCERPT_LEN: usize = 160;

// ---------------------------------------------------------------------------------------------
// Excerpt
// ---------------------------------------------------------------------------------------------

/// `s.replace(p, "")`: every occurrence of `p`, scanning left to right without overlaps, removed.
pub open spec fn remove_all(s: Seq<char>, p: Seq<char>) -> Seq<char>
    decreases s.len(),
{
    if p.len() == 0 || s.len() < p.len() {
        s
    } else if starts_with(s, p) {
        remove_all(s.skip(p.len() as int), p)
    } else {
        seq![s[0]] + remove_all(s.skip(1), p)
    }
}

/// Number of leading `#` characters.
pub open spec fn lead_hashes(s: Seq<char>) -> nat
    decreases s.len(),
{
    if s.len() > 0 && s[0] == '#' {
        1 + lead_hashes(s.skip(1))
    } else {
        0
    }
}

/// A line without its heading marks: leading whitespace, then leading `#`s, then leading
/// whitespace removed.
pub open spec fn unheaded_line(l: Seq<char>) -> Seq<char> {
    let a = trim_start(l);
    trim_start(a.skip(lead_hashes(a) as int))
}

/// Markdown emphasis, strike-through and code marks removed.
pub open spec fn unmarked(content: Seq<char>) -> Seq<char> {
    remove_all(remove_all(remove_all(remove_all(content, "**"@), "__"@), "~~"@), "`"@)
}

/// The plain text an excerpt is cut from: marks removed, each line without heading marks,
/// lines joined with `\n`, the whole trimmed.
pub open spec fn excerpt_source(content: Seq<char>) -> Seq<char> {
    trim(join(lines_of(unmarked(content)).map_values(|l: Seq<char>| unheaded_line(l)), "\n"@))
}

/// The excerpt of `content`: its plain text when that has at most `max_len` characters,
/// otherwise the first `max_len` characters, trailing whitespace removed, followed by `...`.
pub open spec fn excerpt_of(content: Seq<char>, max_len: nat) -> Seq<char> {
    let t = excerpt_source(content);
    if t.len() <= max_len {
        t
    } else {
        trim_end(t.take(max_len as int)) + "..."@
    }
}

fn remove_all_chars(s: &[char], p: &[char]) -> (r: Vec<char>)
    requires
        p@.len() > 0,
    ensures
        r@ == remove_all(s@, p@),
{
    let mut r: Vec<char> = Vec::new();
    let mut i: usize = 0;
    assert(s@.skip(0) == s@);
    while i < s.len()
        invariant
            i <= s.len(),
            p@.len() > 0,
            r@ + remove_all(s@.skip(i as int), p@) == remove_all(s@, p@),
        decreases s.len() - i,
    {
        let ghost t = s@.skip(i as int);
        if p.len() <= s.len() - i && crate::text::chars_match_at(s, p, i) {
            assert(t.take(p@.len() as int) == s@.subrange(i as int, i + p@.len()));
            assert(t.skip(p@.len() as int) == s@.skip(i + p@.len()));
            i = i + p.len();
        } else {
            if p.len() <= s.len() - i {
                assert(t.take(p@.len() as int) == s@.subrange(i as int, i + p@.len()));
                assert(!starts_with(t, p@));
            }
            let ghost before = r@;
            r.push(s[i]);
            assert(t.skip(1) == s@.skip(i + 1));
            proof {
                if t.len() < p@.len() {
                    // what remains is shorter than the pattern: it is kept whole
                    assert(remove_all(t, p@) == t);
                    assert(remove_all(t.skip(1), p@) == t.skip(1));
                    assert(t =~= seq![s@[i as int]] + t.skip(1));
                }
            }
            assert(r@ + remove_all(s@.skip(i + 1), p@) =~= before + remove_all(t, p@));
            i = i + 1;
        }
    }
    assert(remove_all(s@.skip(i as int), p@) == Seq::<char>::empty());
    r
}

fn strip_cr_chars(l: &Vec<char>) -> (r: Vec<char>)
    ensures
        r@ == strip_cr(l@),
{
    if l.len() > 0 && l[l.len() - 1] == '\r' {
        crate::text::slice_chars(l.as_slice(), 0, l.len() - 1)
    } else {
        crate::text::clone_chars(l)
    }
}

fn lead_hash_count(s: &[char]) -> (k: usize)
    ensures
        k == lead_hashes(s@),
        k <= s@.len(),
{
    let mut k: usize = 0;
    while k < s.len() && s[k] == '#'
        invariant
            k <= s.len(),
            forall|i: int| 0 <= i < k ==> s@[i] == '#',
        decreases s.len() - k,
    {
        k = k + 1;
    }
    proof {
        lemma_lead_hashes(s@, k as int);
    }
    k
}

proof fn lemma_lead_hashes(s: Seq<char>, k: int)
    requires
        0 <= k <= s.len(),
        forall|i: int| 0 <= i < k ==> s[i] == '#',
        k < s.len() ==> s[k] != '#',
    ensures
        lead_hashes(s) == k,
    decreases s.len(),
{
    if k > 0 {
        let q = s.skip(1);
        assert forall|i: int| 0 <= i < k - 1 implies q[i] == '#' by {
            assert(q[i] == s[i + 1]);
        }
        if k - 1 < q.len() {
            assert(q[k - 1] == s[k]);
        }
        lemma_lead_hashes(q, k - 1);
    } else if s.len() > 0 {
        assert(s[0] != '#');
    }
}

fn unheaded_chars(l: &[char]) -> (r: Vec<char>)
    ensures
        r@ == unheaded_line(l@),
{
    let a = crate::text::trim_start_chars(l);
    let k = lead_hash_count(a.as_slice());
    let b = crate::text::slice_chars(a.as_slice(), k, a.len());
    assert(b@ == a@.skip(k as int));
    crate::text::trim_start_chars(b.as_slice())
}

/// The plain text an excerpt is cut from.
fn excerpt_source_chars(content: &str) -> (r: Vec<char>)
    ensures
        r@ == excerpt_source(content@),
{
    let c = crate::text::chars_of(content);
    let p1 = crate::text::chars_of("**");
    let p2 = crate::text::chars_of("__");
    let p3 = crate::text::chars_of("~~");
    let p4 = crate::text::chars_of("`");
    proof {
        reveal_strlit("**");
        reveal_strlit("__");
        reveal_strlit("~~");
        reveal_strlit("`");
    }
    let s1 = remove_all_chars(c.as_slice(), p1.as_slice());
    let s2 = remove_all_chars(s1.as_slice(), p2.as_slice());
    let s3 = remove_all_chars(s2.as_slice(), p3.as_slice());
    let s4 = remove_all_chars(s3.as_slice(), p4.as_slice());
    assert(s4@ == unmarked(content@));
    let pieces = crate::text::split_chars(s4.as_slice(), '\n');
    proof {
        crate::text::lemma_split_char_len(s4@, '\n');
    }
    let ghost ps = split_char(s4@, '\n');
    let ghost cleaned = lines_of(s4@).map_values(|l: Seq<char>| unheaded_line(l));
    let n = pieces.len() - 1;
    let mut out: Vec<char> = Vec::new();
    let mut count: usize = 0;
    let mut i: usize = 0;
    while i < n
        invariant
            n == pieces.len() - 1,
            i <= n,
            count == i,
            pieces.len() == ps.len(),
            forall|j: int| 0 <= j < pieces.len() ==> (#[trigger] pieces[j])@ == ps[j],
            ps == split_char(s4@, '\n'),
            cleaned == lines_of(s4@).map_values(|l: Seq<char>| unheaded_line(l)),
            out@ == join(cleaned.take(i as int), "\n"@),
        decreases n - i,
    {
        let line = strip_cr_chars(&pieces[i]);
        let u = unheaded_chars(line.as_slice());
        proof {
            reveal_strlit("\n");
            assert(cleaned[i as int] == unheaded_line(strip_cr(ps[i as int])));
            assert(cleaned.take((i + 1) as int).drop_last() == cleaned.take(i as int));
            assert(cleaned.take((i + 1) as int).last() == cleaned[i as int]);
        }
        if i > 0 {
            out.push('\n');
        }
        crate::text::extend_chars(&mut out, u.as_slice());
        proof {
            if i > 0 {
                assert(out@ =~= join(cleaned.take(i as int), "\n"@) + "\n"@ + u@);
            } else {
                assert(cleaned.take(1).len() == 1);
                assert(out@ =~= u@);
            }
        }
        i = i + 1;
        count = count + 1;
    }
    let last = &pieces[n];
    if last.len() > 0 {
        let u = unheaded_chars(last.as_slice());
        proof {
            reveal_strlit("\n");
            assert(cleaned.len() == n + 1);
            assert(cleaned[n as int] == unheaded_line(ps[n as int]));
            assert(cleaned.take((n + 1) as int).drop_last() == cleaned.take(n as int));
            assert(cleaned.take((n + 1) as int) == cleaned);
        }
        if n > 0 {
            out.push('\n');
        }
        crate::text::extend_chars(&mut out, u.as_slice());
        proof {
            if n > 0 {
                assert(out@ =~= join(cleaned.take(n as int), "\n"@) + "\n"@ + u@);
            } else {
                assert(out@ =~= u@);
            }
        }
    } else {
        assert(cleaned.len() == n);
        assert(cleaned.take(n as int) == cleaned);
    }
    crate::text::trim_chars(out.as_slice())
}

/// The plain-text excerpt of Markdown `content`, at most `max_len` characters before `...`.
pub fn generate_excerpt(content: &str, max_len: usize) -> (r: String)
    ensures
        r@ == excerpt_of(content@, max_len as nat),
{
    let t = excerpt_source_chars(content);
    if t.len() <= max_len {
        crate::text::string_of(t.as_slice())
    } else {
        let head = crate::text::slice_chars(t.as_slice(), 0, max_len);
        assert(head@ == t@.take(max_len as int));
        let mut cut = crate::text::trim_end_chars(head.as_slice());
        cut.push('.');
        cut.push('.');
        cut.push('.');
        proof {
            reveal_strlit("...");
        }
        assert(cut@ =~= trim_end(t@.take(max_len as int)) + "..."@);
        crate::text::string_of(cut.as_slice())
    }
}


// ---------------------------------------------------------------------------------------------
// Items
// ---------------------------------------------------------------------------------------------

/// The label shown for a news category.
pub open spec fn category_text(category: Seq<char>) -> Seq<char> {
    if category == "update"@ {
        "Обновление"@
    } else if category == "event"@ {
        "Ивент"@
    } else if category == "announcement"@ {
        "Объявление"@
    } else if category == "maintenance"@ {
        "Сервер"@
    } else {
        "Комьюнити"@
    }
}

pub fn category_label(category: &str) -> (l: &'static str)
    ensures
        l@ == category_text(category@),
{
    if crate::text::str_eq(category, "update") {
        "Обновление"
    } else if crate::text::str_eq(category, "event") {
        "Ивент"
    } else if crate::text::str_eq(category, "announcement") {
        "Объявление"
    } else if crate::text::str_eq(category, "maintenance") {
        "Сервер"
    } else {
        "Комьюнити"
    }
}

/// A news item as the API sends it.
#[derive(Debug, Clone)]
pub struct NewsApiItem {
    pub id: String,
    pub title: String,
    pub content: Option<String>,
    pub preview: Option<String>,
    pub image_url: Option<String>,
    pub author_name: String,
    pub author_role: Option<String>,
    pub author_avatar_url: Option<String>,
    pub published_at: String,
    pub category: String,
    pub url: String,
}

/// A news item as the launcher shows it.
#[derive(Debug, Clone)]
pub struct NewsItem {
    pub id: String,
    pub title: String,
    pub content: String,
    pub excerpt: String,
    pub image_url: Option<String>,
    pub author: String,
    pub author_role: String,
    pub author_avatar_url: Option<String>,
    pub date: String,
    pub tag: String,
    pub url: String,
}

/// A page of news.
#[derive(Debug, Clone)]
pub struct NewsPage {
    pub items: Vec<NewsItem>,
    pub has_more: bool,
    pub last_id: Option<String>,
}

pub open spec fn text_or_empty(o: Option<String>) -> Seq<char> {
    match o {
        Some(s) => s@,
        None => Seq::<char>::empty(),
    }
}

/// The shown item for an API item: missing content and role become empty; the excerpt is cut
/// from the content, or, when there is no content, is the first characters of the preview; the
/// tag is the category's label.
pub open spec fn news_item_of(a: NewsApiItem, n: NewsItem) -> bool {
    let content = text_or_empty(a.content);
    &&& n.id == a.id
    &&& n.title == a.title
    &&& n.content@ == content
    &&& n.excerpt@ == if content.len() == 0 {
        let p = text_or_empty(a.preview);
        if p.len() <= EXCERPT_LEN {
            p
        } else {
            p.take(EXCERPT_LEN as int)
        }
    } else {
        excerpt_of(content, EXCERPT_LEN as nat)
    }
    &&& n.image_url == a.image_url
    &&& n.author == a.author_name
    &&& n.author_role@ == text_or_empty(a.author_role)
    &&& n.author_avatar_url == a.author_avatar_url
    &&& n.date == a.published_at
    &&& n.tag@ == category_text(a.category@)
    &&& n.url == a.url
}

fn string_or_empty(o: Option<String>) -> (s: String)
    ensures
        s@ == text_or_empty(o),
{
    match o {
        Some(s) => s,
        None => String::new(),
    }
}

/// The first `n` characters of `s` (`s.chars().take(n)`).
pub fn take_chars(s: &str, n: usize) -> (r: String)
    ensures
        r@ == if s@.len() <= n {
            s@
        } else {
            s@.take(n as int)
        },
{
    let cs = crate::text::chars_of(s);
    if cs.len() <= n {
        crate::text::string_of(cs.as_slice())
    } else {
        let h = crate::text::slice_chars(cs.as_slice(), 0, n);
        assert(h@ == s@.take(n as int));
        crate::text::string_of(h.as_slice())
    }
}

/// The item the launcher shows for an item of the news API.
pub fn news_item_from_api(a: NewsApiItem) -> (n: NewsItem)
    ensures
        news_item_of(a, n),
{
    let ghost orig = a;
    let content = string_or_empty(a.content);
    let excerpt = if content.as_str().is_empty() {
        let p = string_or_empty(a.preview);
        take_chars(p.as_str(), EXCERPT_LEN)
    } else {
        generate_excerpt(content.as_str(), EXCERPT_LEN)
    };
    let tag = category_label(a.category.as_str()).to_owned();
    NewsItem {
        id: a.id,
        title: a.title,
        content,
        excerpt,
        image_url: a.image_url,
        author: a.author_name,
        author_role: string_or_empty(a.author_role),
        author_avatar_url: a.author_avatar_url,
        date: a.published_at,
        tag,
        url: a.url,
    }
}

pub const UNSUCCESSFUL_MESSAGE: &'static str = "News API returned success=false";

/// The page for an answer of the news API whose well-formed items are `items`: refused when the
/// answer says it did not succeed, otherwise each item in order as the launcher shows it.
pub fn news_page(success: bool, items: Vec<NewsApiItem>, has_more: bool, last_id: Option<String>) -> (r: Result<NewsPage, String>)
    ensures
        match r {
            Ok(p) => success && p.has_more == has_more && p.last_id == last_id && p.items@.len()
                == items@.len() && forall|k: int|
                0 <= k < items@.len() ==> news_item_of(items@[k], #[trigger] p.items@[k]),
            Err(m) => !success && m@ == UNSUCCESSFUL_MESSAGE@,
        },
{
    if !success {
        return Err(UNSUCCESSFUL_MESSAGE.to_owned());
    }
    let ghost all = items@;
    let mut rest = items;
    let mut out: Vec<NewsItem> = Vec::new();
    while rest.len() > 0
        invariant
            out@.len() + rest@.len() == all.len(),
            rest@ == all.skip(out@.len() as int),
            forall|k: int| 0 <= k < out@.len() ==> news_item_of(all[k], #[trigger] out@[k]),
        decreases rest@.len(),
    {
        let a = rest.remove(0);
        assert(a == all[out@.len() as int]);
        assert(rest@ == all.skip(out@.len() as int + 1));
        out.push(news_item_from_api(a));
    }
    Ok(NewsPage { items: out, has_more, last_id })
}

/// Address of the news endpoint.
pub fn news_api_url() -> (u: String)
    ensures
        u@ == crate::config::api_url("/launcher/news"@),
{
    crate::config::api_endpoint("/launcher/news")
}

/// Where the first page of news is kept.
pub fn news_cache_path(game_dir: &str) -> (p: Vec<String>)
    ensures
        crate::mods::path_view(p@) == crate::mods::path_in(game_dir@, "news_cache.json"@),
{
    crate::mods::join_path(game_dir, "news_cache.json")
}

/// The query of a news request: eight items, older than `before` when paging on.
pub fn news_query(before: &Option<String>) -> (q: Vec<(String, String)>)
    ensures
        crate::net::pair_texts(q@) == match before {
            Some(b) => seq![("limit"@, "8"@), ("before"@, b@)],
            None => seq![("limit"@, "8"@)],
        },
{
    let mut q: Vec<(String, String)> = Vec::new();
    q.push(("limit".to_owned(), "8".to_owned()));
    match before {
        Some(b) => {
            q.push(("before".to_owned(), b.clone()));
            assert(crate::net::pair_texts(q@) =~= seq![("limit"@, "8"@), ("before"@, b@)]);
        },
        None => {
            assert(crate::net::pair_texts(q@) =~= seq![("limit"@, "8"@)]);
        },
    }
    q
}

/// How old the cached first page may be and still stand in for the live one: thirty days.
pub const NEWS_FALLBACK_MAX_AGE_SECS: u64 = 2592000;

/// An excerpt is never longer than the length asked for plus the three dots that mark a cut.
pub proof fn excerpt_length_bound(content: Seq<char>, max_len: nat)
    ensures
        excerpt_of(content, max_len).len() <= max_len + 3,
{
    let t = excerpt_source(content);
    if t.len() > max_len {
        crate::text::lemma_trail_ws_bound(t.take(max_len as int));
        reveal_strlit("...");
    }
}

} // verus!
