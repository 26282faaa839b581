//! Extraction of metadata and asset URLs from fetched pages.
//!
//! The platform-coupled selector queries and entity decoding are trusted
//! wrappers over outside crates; everything downstream of them — cleaning,
//! date normalization, asset-host acceptance, query stripping, the
//! primary/fallback choice and extension derivation — is verified.

use vstd::prelude::*;
use vstd::string::*;

use crate::error::NpError;
use crate::text::{
    contains_sub, find_last, has_sub, last_pos, lemma_last_pos, normalize_date,
    normalized_date_spec, remove_char, remove_char_spec, str_to_chars, string_from_chars, subvec,
    trim_chars, trim_spec,
};

verus! {

/// The views of a sequence of strings.
pub open spec fn str_views(s: Seq<String>) -> Seq<Seq<char>> {
    s.map_values(|x: String| x@)
}

/// The inner text of each embedded content `script` element of a detail
/// page, in document order.
pub uninterp spec fn clip_parts(html: Seq<char>) -> Seq<Seq<char>>;

/// Relies on scraper's `Html::parse_document`, `Selector` and `select`:
/// parsing and selection read the document text alone, and `select` walks
/// the matching elements in document order.
#[verifier::external_body]
fn clip_fragments(html: &str) -> (r: Vec<String>)
    ensures
        str_views(r@) == clip_parts(html@),
{
    let sel = scraper::Selector::parse("script#__clipContent").unwrap();
    let doc = scraper::Html::parse_document(html);
    doc.select(&sel).map(|e| e.text().collect::<String>()).collect()
}

/// The HTML-entity-decoded form of a text, when every entity in it is
/// well-formed.
pub uninterp spec fn entity_decoded(s: Seq<char>) -> Option<Seq<char>>;

/// Relies on htmlescape's `decode_html`: the decoding is a function of the
/// input text alone, and fails only on malformed entities.
#[verifier::external_body]
fn decode_entities(s: &str) -> (r: Option<String>)
    ensures
        match r {
            Some(d) => entity_decoded(s@) == Some(d@),
            None => entity_decoded(s@) is None,
        },
{
    htmlescape::decode_html(s).ok()
}

/// The `content` attribute of the creation-date meta tag of a detail
/// page, when the tag is present.
pub uninterp spec fn created_meta(html: Seq<char>) -> Option<Seq<char>>;

/// Relies on scraper: reads the `content` attribute of the first
/// `meta[property="og:createdate"]` element of the document.
#[verifier::external_body]
fn meta_created(html: &str) -> (r: Option<String>)
    ensures
        match r {
            Some(d) => created_meta(html@) == Some(d@),
            None => created_meta(html@) is None,
        },
{
    let sel = scraper::Selector::parse(r#"meta[property="og:createdate"]"#).unwrap();
    let doc = scraper::Html::parse_document(html);
    doc.select(&sel).find_map(|m| m.value().attr("content")).map(|s| s.to_owned())
}

/// The `content` attribute of the title meta tag of a detail page, when
/// the tag is present.
pub uninterp spec fn title_meta(html: Seq<char>) -> Option<Seq<char>>;

/// Relies on scraper: reads the `content` attribute of the first
/// `meta[property="nv:news:title"]` element of the document.
#[verifier::external_body]
fn meta_title(html: &str) -> (r: Option<String>)
    ensures
        match r {
            Some(d) => title_meta(html@) == Some(d@),
            None => title_meta(html@) is None,
        },
{
    let sel = scraper::Selector::parse(r#"meta[property="nv:news:title"]"#).unwrap();
    let doc = scraper::Html::parse_document(html);
    doc.select(&sel).find_map(|m| m.value().attr("content")).map(|s| s.to_owned())
}

/// The `data-src` attributes of the primary image selector family, in
/// document order.
pub uninterp spec fn primary_srcs(body: Seq<char>) -> Seq<Seq<char>>;

/// Relies on scraper: reads the `data-src` attribute of each
/// `img.se_mediaImage` element of the fragment, in document order.
#[verifier::external_body]
fn scrape_primary_srcs(body: &str) -> (r: Vec<String>)
    ensures
        str_views(r@) == primary_srcs(body@),
{
    let sel = scraper::Selector::parse("img.se_mediaImage").unwrap();
    let doc = scraper::Html::parse_fragment(body);
    doc.select(&sel).filter_map(|e| e.value().attr("data-src")).map(|s| s.to_owned()).collect()
}

/// The `data-src` attributes of the secondary image selector family, in
/// document order.
pub uninterp spec fn fallback_srcs(body: Seq<char>) -> Seq<Seq<char>>;

/// Relies on scraper: reads the `data-src` attribute of each
/// `img.img_attachedfile` element of the fragment, in document order.
#[verifier::external_body]
fn scrape_fallback_srcs(body: &str) -> (r: Vec<String>)
    ensures
        str_views(r@) == fallback_srcs(body@),
{
    let sel = scraper::Selector::parse("img.img_attachedfile").unwrap();
    let doc = scraper::Html::parse_fragment(body);
    doc.select(&sel).filter_map(|e| e.value().attr("data-src")).map(|s| s.to_owned()).collect()
}

/// The URL with its query string cleared, when the text parses as a URL.
pub uninterp spec fn sans_query(u: Seq<char>) -> Option<Seq<char>>;

/// Relies on the url crate's `Url::parse` and query-pair clearing: both
/// are functions of the URL text alone.
#[verifier::external_body]
fn strip_query(u: &str) -> (r: Option<String>)
    ensures
        match r {
            Some(s) => sans_query(u@) == Some(s@),
            None => sans_query(u@) is None,
        },
{
    let mut parsed = match url::Url::parse(u) {
        Ok(p) => p,
        Err(_) => {
            return None;
        },
    };
    parsed.query_pairs_mut().clear();
    Some(parsed.as_str().trim_end_matches('?').to_owned())
}

/// The concatenation of the decodable parts, in order; undecodable parts
/// contribute nothing.
pub open spec fn joined_decoded(parts: Seq<Seq<char>>) -> Seq<char>
    decreases parts.len(),
{
    if parts.len() == 0 {
        Seq::empty()
    } else {
        joined_decoded(parts.drop_last()) + (match entity_decoded(parts.last()) {
            Some(d) => d,
            None => Seq::empty(),
        })
    }
}

/// The real content body of a detail page: the entity-decoded inner text
/// of its embedded content script elements, concatenated in order.
pub fn real_body(html: &str) -> (r: String)
    ensures
        r@ == joined_decoded(clip_parts(html@)),
{
    let parts = clip_fragments(html);
    let mut out: Vec<char> = Vec::new();
    let mut i: usize = 0;
    while i < parts.len()
        invariant
            0 <= i <= parts@.len(),
            str_views(parts@) == clip_parts(html@),
            out@ == joined_decoded(str_views(parts@).subrange(0, i as int)),
        decreases parts@.len() - i,
    {
        match decode_entities(parts[i].as_str()) {
            Some(d) => {
                let mut dc = str_to_chars(d.as_str());
                out.append(&mut dc);
            },
            None => {},
        }
        i += 1;
        proof {
            let pv = str_views(parts@);
            assert(pv.subrange(0, i as int).drop_last() =~= pv.subrange(0, i - 1));
            assert(pv.subrange(0, i as int).last() == pv[i - 1]);
        }
    }
    proof {
        assert(str_views(parts@).subrange(0, parts@.len() as int) =~= str_views(parts@));
    }
    string_from_chars(&out)
}

/// A raw meta text after cleaning: whitespace trimmed, newlines removed.
pub open spec fn cleaned_meta(raw: Seq<char>) -> Seq<char> {
    remove_char_spec(trim_spec(raw), '\n')
}

/// The normalized `YYYYMMDD` creation date of a detail page, when its
/// date meta tag is present and long enough to carry a `YYYY-MM-DD`
/// prefix after cleaning.
pub open spec fn extract_date_spec(html: Seq<char>) -> Option<Seq<char>> {
    match created_meta(html) {
        Some(raw) => if cleaned_meta(raw).len() >= 10 {
            Some(normalized_date_spec(cleaned_meta(raw)))
        } else {
            None
        },
        None => None,
    }
}

/// Extracts and normalizes the creation date of a detail page; a page
/// without the date meta tag, or with a date too short to carry the
/// `YYYY-MM-DD` prefix, is a parse error naming the offending text.
pub fn extract_date(html: &str) -> (r: Result<String, NpError>)
    ensures
        match r {
            Ok(d) => extract_date_spec(html@) == Some(d@),
            Err(e) => extract_date_spec(html@) is None && (match e {
                NpError::Parse { what } => match created_meta(html@) {
                    None => what@ == html@,
                    Some(raw) => what@ == cleaned_meta(raw),
                },
                _ => false,
            }),
        },
{
    match meta_created(html) {
        None => Err(NpError::Parse { what: html.to_owned() }),
        Some(raw) => {
            let chars = str_to_chars(raw.as_str());
            let cleaned = remove_char(&trim_chars(&chars), '\n');
            let cleaned_str = string_from_chars(&cleaned);
            match normalize_date(cleaned_str.as_str()) {
                Some(d) => Ok(d),
                None => Err(NpError::Parse { what: cleaned_str }),
            }
        },
    }
}

/// The cleaned title of a detail page, when its title meta tag is present.
pub open spec fn extract_title_spec(html: Seq<char>) -> Option<Seq<char>> {
    match title_meta(html) {
        Some(raw) => Some(cleaned_meta(raw)),
        None => None,
    }
}

/// Extracts the title of a detail page; a page without the title meta tag
/// is a parse error naming the offending text.
pub fn extract_title(html: &str) -> (r: Result<String, NpError>)
    ensures
        match r {
            Ok(t) => extract_title_spec(html@) == Some(t@),
            Err(e) => extract_title_spec(html@) is None && (match e {
                NpError::Parse { what } => what@ == html@,
                _ => false,
            }),
        },
{
    match meta_title(html) {
        None => Err(NpError::Parse { what: html.to_owned() }),
        Some(raw) => {
            let chars = str_to_chars(raw.as_str());
            let cleaned = remove_char(&trim_chars(&chars), '\n');
            Ok(string_from_chars(&cleaned))
        },
    }
}

/// The trusted asset host: only URLs pointing at it are accepted.
pub open spec fn asset_host() -> Seq<char> {
    "post-phinf.pstatic.net"@
}

/// A candidate asset URL is accepted when it points at the trusted asset
/// host and parses as a URL; its query string is then cleared.
pub open spec fn accept_one(u: Seq<char>) -> Option<Seq<char>> {
    if has_sub(u, asset_host()) {
        sans_query(u)
    } else {
        None
    }
}

/// The accepted candidates, in source order.
pub open spec fn accepted_urls(srcs: Seq<Seq<char>>) -> Seq<Seq<char>>
    decreases srcs.len(),
{
    if srcs.len() == 0 {
        Seq::empty()
    } else {
        accepted_urls(srcs.drop_last()) + (match accept_one(srcs.last()) {
            Some(u) => seq![u],
            None => Seq::empty(),
        })
    }
}

/// The asset URLs of a content body: the accepted candidates of the
/// primary selector family, or of the secondary family when the primary
/// family yields none.
pub open spec fn extract_images_spec(body: Seq<char>) -> Seq<Seq<char>> {
    if accepted_urls(primary_srcs(body)).len() > 0 {
        accepted_urls(primary_srcs(body))
    } else {
        accepted_urls(fallback_srcs(body))
    }
}

/// Filters and rewrites candidate URLs: keep those pointing at the
/// trusted asset host, with their query strings cleared, in order.
fn accept_candidates(srcs: &Vec<String>) -> (r: Vec<String>)
    ensures
        str_views(r@) == accepted_urls(str_views(srcs@)),
{
    let host = str_to_chars("post-phinf.pstatic.net");
    let mut out: Vec<String> = Vec::new();
    let mut i: usize = 0;
    while i < srcs.len()
        invariant
            0 <= i <= srcs@.len(),
            host@ == asset_host(),
            str_views(out@) == accepted_urls(str_views(srcs@).subrange(0, i as int)),
        decreases srcs@.len() - i,
    {
        let uc = str_to_chars(srcs[i].as_str());
        if contains_sub(&uc, &host) {
            match strip_query(srcs[i].as_str()) {
                Some(stripped) => {
                    out.push(stripped);
                },
                None => {},
            }
        }
        i += 1;
        proof {
            let sv = str_views(srcs@);
            assert(sv.subrange(0, i as int).drop_last() =~= sv.subrange(0, i - 1));
            assert(sv.subrange(0, i as int).last() == sv[i - 1]);
            assert(str_views(out@) =~= accepted_urls(sv.subrange(0, i as int)));
        }
    }
    proof {
        assert(str_views(srcs@).subrange(0, srcs@.len() as int) =~= str_views(srcs@));
    }
    out
}

/// The ordered asset URLs of a content body. The primary selector family
/// is tried first; only if it yields no accepted URL is the secondary
/// family consulted. Order is preserved: ordinal position feeds filename
/// numbering.
pub fn extract_images(body: &str) -> (r: Vec<String>)
    ensures
        str_views(r@) == extract_images_spec(body@),
{
    let primary = scrape_primary_srcs(body);
    let accepted = accept_candidates(&primary);
    if accepted.len() > 0 {
        return accepted;
    }
    let secondary = scrape_fallback_srcs(body);
    accept_candidates(&secondary)
}

/// The extension part of an asset filename, derived from its URL: the
/// text after the last `.` of the URL's last `/`-separated segment,
/// The Unicode-lowercased form of a string.
pub uninterp spec fn lower_of(s: Seq<char>) -> Seq<char>;

/// Relies on `str::to_lowercase`: the result depends on the characters
/// alone.
#[verifier::external_body]
fn lowercase(s: &str) -> (r: String)
    ensures
        r@ == lower_of(s@),
{
    s.to_lowercase()
}

/// Unicode-lowercased and preceded by a dot; empty when the segment is
/// the parent-directory component `..`, has no dot, or starts with its
/// only dot.
pub open spec fn extension_spec(u: Seq<char>) -> Seq<char> {
    let name = u.subrange(last_pos(u, '/') + 1, u.len() as int);
    let ld = last_pos(name, '.');
    if name.len() == 2 && name[0] == '.' && name[1] == '.' {
        Seq::empty()
    } else if ld > 0 {
        seq!['.'] + lower_of(name.subrange(ld + 1, name.len() as int))
    } else {
        Seq::empty()
    }
}

/// The lower-cased file extension of an asset URL, including its dot, or
/// the empty string when the URL's last segment carries none.
pub fn extract_extension(url: &str) -> (r: String)
    ensures
        r@ == extension_spec(url@),
{
    let u = str_to_chars(url);
    let ulen = u.len();
    proof {
        lemma_last_pos(u@, '/');
    }
    let ns = match find_last(&u, '/') {
        Some(i) => i + 1,
        None => 0,
    };
    let name = subvec(&u, ns, ulen);
    let nlen = name.len();
    proof {
        lemma_last_pos(name@, '.');
    }
    if nlen == 2 && name[0] == '.' && name[1] == '.' {
        return String::new();
    }
    match find_last(&name, '.') {
        Some(d) => {
            if d > 0 {
                let raw = subvec(&name, d + 1, nlen);
                let raw_str = string_from_chars(&raw);
                let low = lowercase(raw_str.as_str());
                let mut out = ".".to_owned();
                out.append(low.as_str());
                proof {
                    reveal_strlit(".");
                    assert("."@ =~= seq!['.']);
                }
                out
            } else {
                String::new()
            }
        },
        None => String::new(),
    }
}

} // verus!
