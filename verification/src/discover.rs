//! Discovery: parsing listing pages, paginated accumulation with
//! deduplication, the title filter, and volume-id parsing for single-URL
//! mode.

use vstd::prelude::*;
use vstd::string::*;

use crate::error::NpError;
use crate::text::{
    check_match_at, is_digit_char, match_at, remove_char, remove_char_spec, str_to_chars,
    string_from_chars, trim_chars, trim_spec,
};
use crate::volume::{vol_views, ListingEntry, Volume, VolumeView};

verus! {

// ---------------------------------------------------------------------------
// Listing-page parsing
// ---------------------------------------------------------------------------
/// The platform's listing quirk, unescaped: a backslash followed by any
/// character other than `"` or `n` stands for that character alone.
pub open spec fn unescape_spec(s: Seq<char>) -> Seq<char>
    decreases s.len(),
{
    if s.len() == 0 {
        Seq::empty()
    } else if s.len() >= 2 && s[0] == '\\' && s[1] != '"' && s[1] != 'n' {
        seq![s[1]] + unescape_spec(s.skip(2))
    } else {
        seq![s[0]] + unescape_spec(s.skip(1))
    }
}

/// Removes the platform's escape quirk from a listing response: each
/// backslash followed by a character other than `"` or `n` is replaced by
/// that character, scanning left to right without overlap.
pub fn unescape_listing(s: &Vec<char>) -> (r: Vec<char>)
    ensures
        r@ == unescape_spec(s@),
{
    let n = s.len();
    let mut out: Vec<char> = Vec::new();
    let mut i: usize = 0;
    proof {
        assert(s@.skip(0) =~= s@);
        assert(Seq::<char>::empty() + unescape_spec(s@) =~= unescape_spec(s@));
    }
    while i < n
        invariant
            0 <= i <= n,
            n == s@.len(),
            unescape_spec(s@) == out@ + unescape_spec(s@.skip(i as int)),
        decreases n - i,
    {
        let ghost pre = i as int;
        if i + 1 < n && s[i] == '\\' && s[i + 1] != '"' && s[i + 1] != 'n' {
            out.push(s[i + 1]);
            i += 2;
        } else {
            out.push(s[i]);
            i += 1;
        }
        proof {
            let tail = s@.skip(pre);
            assert(tail.len() == s@.len() - pre);
            assert(tail[0] == s@[pre]);
            if pre + 1 < s@.len() {
                assert(tail[1] == s@[pre + 1]);
            }
            assert(tail.skip(1) =~= s@.skip(pre + 1));
            if tail.len() >= 2 {
                assert(tail.skip(2) =~= s@.skip(pre + 2));
            }
        }
    }
    proof {
        assert(s@.skip(s@.len() as int) =~= Seq::<char>::empty());
        assert(out@ =~= unescape_spec(s@));
    }
    out
}

/// The string field of the listing response's JSON envelope, when the
/// response is a JSON object carrying one.
pub uninterp spec fn listing_html(s: Seq<char>) -> Option<Seq<char>>;

/// Relies on serde_json: parses the unescaped listing response as JSON
/// and reads the `html` string field of its top-level object; both depend
/// on the text alone.
#[verifier::external_body]
fn parse_listing_envelope(text: &str) -> (r: Option<String>)
    ensures
        match r {
            Some(h) => listing_html(text@) == Some(h@),
            None => listing_html(text@) is None,
        },
{
    let v: serde_json::Value = match serde_json::from_str(text) {
        Ok(v) => v,
        Err(_) => {
            return None;
        },
    };
    Some(v.get("html")?.as_str()?.to_owned())
}

/// The listing entries of a listing fragment: for each `li` element
/// carrying a volume-id attribute, the id and the raw title and date
/// texts of its descendants, in document order.
pub uninterp spec fn listing_entries(h: Seq<char>) -> Seq<
    (Seq<char>, Option<Seq<char>>, Option<Seq<char>>),
>;

/// Relies on scraper: selects the `li` elements of the fragment that
/// carry a `volumeno` attribute and reads that attribute and the text of
/// their `.tit_feed` and `.date_post` descendants, in document order.
#[verifier::external_body]
fn scrape_listing(html: &str) -> (r: Vec<ListingEntry>)
    ensures
        r@.len() == listing_entries(html@).len(),
        forall|i: int| 0 <= i < r@.len() ==> (#[trigger] r@[i])@ == listing_entries(html@)[i],
{
    let li = scraper::Selector::parse("li").unwrap();
    let tit = scraper::Selector::parse(".tit_feed").unwrap();
    let dat = scraper::Selector::parse(".date_post").unwrap();
    let doc = scraper::Html::parse_fragment(html);
    doc.select(&li).filter_map(|e| {
        let id = e.value().attr("volumeno")?.to_owned();
        let inner = scraper::Html::parse_fragment(&e.inner_html());
        let title = inner.select(&tit).next().map(|v| v.text().collect::<String>());
        let date = inner.select(&dat).next().map(|v| v.text().collect::<String>());
        Some(ListingEntry { id, title, date })
    }).collect()
}

/// A raw listing title, cleaned: newlines removed, whitespace trimmed.
pub open spec fn clean_title_spec(t: Seq<char>) -> Seq<char> {
    trim_spec(remove_char_spec(t, '\n'))
}

/// A raw listing date, cleaned: dots removed, whitespace trimmed.
pub open spec fn clean_date_spec(d: Seq<char>) -> Seq<char> {
    trim_spec(remove_char_spec(d, '.'))
}

/// The volume a listing entry stands for: its id, with title and date
/// cleaned where present.
pub open spec fn volume_of_entry(e: (Seq<char>, Option<Seq<char>>, Option<Seq<char>>)) -> VolumeView {
    VolumeView {
        id: e.0,
        title: match e.1 {
            Some(t) => Some(clean_title_spec(t)),
            None => None,
        },
        date: match e.2 {
            Some(d) => Some(clean_date_spec(d)),
            None => None,
        },
    }
}

/// The volumes of one raw listing response: unescape the quirk, read the
/// JSON envelope, scrape the entries, clean each. `None` when the
/// envelope is malformed.
pub open spec fn listing_volumes(text: Seq<char>) -> Option<Seq<VolumeView>> {
    match listing_html(unescape_spec(text)) {
        Some(h) => Some(
            listing_entries(h).map_values(
                |e: (Seq<char>, Option<Seq<char>>, Option<Seq<char>>)| volume_of_entry(e),
            ),
        ),
        None => None,
    }
}

fn clean_text(raw: &String, unwanted: char) -> (r: String)
    ensures
        r@ == trim_spec(remove_char_spec(raw@, unwanted)),
{
    let chars = str_to_chars(raw.as_str());
    let cleaned = trim_chars(&remove_char(&chars, unwanted));
    string_from_chars(&cleaned)
}

/// Parses one raw listing response into its volumes. A response whose
/// JSON envelope is malformed or lacks the `html` field is a parse error
/// naming the unescaped text.
pub fn parse_listing_page(text: &str) -> (r: Result<Vec<Volume>, NpError>)
    ensures
        match r {
            Ok(vs) => listing_volumes(text@) == Some(vol_views(vs@)),
            Err(e) => listing_volumes(text@) is None && (match e {
                NpError::Parse { what } => what@ == unescape_spec(text@),
                _ => false,
            }),
        },
{
    let chars = str_to_chars(text);
    let un = unescape_listing(&chars);
    let un_str = string_from_chars(&un);
    let html = match parse_listing_envelope(un_str.as_str()) {
        Some(h) => h,
        None => {
            return Err(NpError::Parse { what: un_str });
        },
    };
    let entries = scrape_listing(html.as_str());
    let ghost evs = listing_entries(html@);
    let mut out: Vec<Volume> = Vec::new();
    let mut i: usize = 0;
    while i < entries.len()
        invariant
            0 <= i <= entries@.len(),
            entries@.len() == evs.len(),
            forall|j: int| 0 <= j < entries@.len() ==> (#[trigger] entries@[j])@ == evs[j],
            out@.len() == i,
            forall|j: int| 0 <= j < i ==> (#[trigger] out@[j])@ == volume_of_entry(evs[j]),
        decreases entries@.len() - i,
    {
        let ent = &entries[i];
        let id = ent.id.clone();
        let title = match &ent.title {
            Some(t) => Some(clean_text(t, '\n')),
            None => None,
        };
        let date = match &ent.date {
            Some(d) => Some(clean_text(d, '.')),
            None => None,
        };
        out.push(Volume { id, title, date });
        i += 1;
    }
    proof {
        assert(vol_views(out@) =~= evs.map_values(
            |e: (Seq<char>, Option<Seq<char>>, Option<Seq<char>>)| volume_of_entry(e),
        ));
    }
    Ok(out)
}

// ---------------------------------------------------------------------------
// Paginated accumulation with deduplication
// ---------------------------------------------------------------------------
/// Whether some volume of the sequence carries this id.
pub open spec fn seq_has_id(s: Seq<VolumeView>, id: Seq<char>) -> bool {
    exists|i: int| 0 <= i < s.len() && s[i].id == id
}

/// Appends `new` to `acc` left to right, dropping each volume whose id is
/// already present; the first occurrence's metadata is retained.
pub open spec fn dedup_append_spec(acc: Seq<VolumeView>, new: Seq<VolumeView>) -> Seq<VolumeView>
    decreases new.len(),
{
    if new.len() == 0 {
        acc
    } else if seq_has_id(acc, new[0].id) {
        dedup_append_spec(acc, new.drop_first())
    } else {
        dedup_append_spec(acc.push(new[0]), new.drop_first())
    }
}

/// No id occurs twice.
pub open spec fn unique_ids(s: Seq<VolumeView>) -> bool {
    forall|i: int, j: int| 0 <= i < j < s.len() ==> s[i].id != s[j].id
}

/// Whether some volume of the vector carries this id.
fn contains_id(vols: &Vec<Volume>, id: &String) -> (r: bool)
    ensures
        r == seq_has_id(vol_views(vols@), id@),
{
    let mut i: usize = 0;
    while i < vols.len()
        invariant
            0 <= i <= vols@.len(),
            forall|j: int| 0 <= j < i ==> vol_views(vols@)[j].id != id@,
        decreases vols@.len() - i,
    {
        if vols[i].id == *id {
            proof {
                assert(vol_views(vols@)[i as int].id == id@);
            }
            return true;
        }
        i += 1;
    }
    false
}

fn clone_volume(v: &Volume) -> (r: Volume)
    ensures
        r@ == v@,
{
    Volume {
        id: v.id.clone(),
        title: match &v.title {
            Some(t) => Some(t.clone()),
            None => None,
        },
        date: match &v.date {
            Some(d) => Some(d.clone()),
            None => None,
        },
    }
}

/// The discovery loop's state: the next page to fetch, the accumulated
/// deduplicated volumes in discovery order, the optional result-count
/// limit, and whether the loop has terminated.
pub struct Discovery {
    pub page: usize,
    pub vols: Vec<Volume>,
    pub limit: Option<usize>,
    pub done: bool,
}

impl Discovery {
    /// A fresh discovery: page 1, nothing accumulated, running. The first
    /// page is always fetched: `done` only becomes true after a step.
    pub fn new(limit: Option<usize>) -> (d: Discovery)
        ensures
            d.page == 1,
            d.vols@.len() == 0,
            d.limit == limit,
            !d.done,
    {
        Discovery { page: 1, vols: Vec::new(), limit, done: false }
    }

    /// Consumes the volumes of one fetched page: append them with
    /// deduplication by id, advance the page counter, and terminate when
    /// the page was empty or the limit is reached — in the latter case
    /// the accumulation is truncated to exactly the limit, preserving
    /// discovery order.
    pub fn step(&mut self, page_vols: &Vec<Volume>)
        requires
            !old(self).done,
            old(self).page < usize::MAX,
        ensures
            final(self).page == old(self).page + 1,
            final(self).limit == old(self).limit,
            ({
                let merged = dedup_append_spec(
                    vol_views(old(self).vols@),
                    vol_views(page_vols@),
                );
                let hit = match old(self).limit {
                    Some(l) => merged.len() >= l,
                    None => false,
                };
                &&& vol_views(final(self).vols@) == (match old(self).limit {
                    Some(l) => if merged.len() >= l {
                        merged.subrange(0, l as int)
                    } else {
                        merged
                    },
                    None => merged,
                })
                &&& final(self).done == (page_vols@.len() == 0 || hit)
            }),
    {
        let ghost orig_acc = vol_views(self.vols@);
        let ghost new_views = vol_views(page_vols@);
        let mut j: usize = 0;
        proof {
            assert(new_views.skip(0) =~= new_views);
        }
        while j < page_vols.len()
            invariant
                0 <= j <= page_vols@.len(),
                new_views == vol_views(page_vols@),
                new_views.len() == page_vols@.len(),
                dedup_append_spec(orig_acc, new_views) == dedup_append_spec(
                    vol_views(self.vols@),
                    new_views.skip(j as int),
                ),
                self.page == old(self).page,
                self.limit == old(self).limit,
                self.done == old(self).done,
            decreases page_vols@.len() - j,
        {
            let ghost pre_vols = vol_views(self.vols@);
            let ghost tail = new_views.skip(j as int);
            let v = &page_vols[j];
            if !contains_id(&self.vols, &v.id) {
                self.vols.push(clone_volume(v));
                proof {
                    assert(vol_views(self.vols@) =~= pre_vols.push(v@));
                }
            }
            j += 1;
            proof {
                assert(tail[0] == new_views[j - 1]);
                assert(tail.drop_first() =~= new_views.skip(j as int));
            }
        }
        proof {
            assert(new_views.skip(new_views.len() as int) =~= Seq::<VolumeView>::empty());
        }
        self.page += 1;
        let mut hit = false;
        match self.limit {
            Some(l) => {
                if self.vols.len() >= l {
                    let ghost merged = vol_views(self.vols@);
                    self.vols.truncate(l);
                    proof {
                        assert(vol_views(self.vols@) =~= merged.subrange(0, l as int));
                    }
                    hit = true;
                }
            },
            None => {},
        }
        self.done = page_vols.len() == 0 || hit;
    }
}

// ---------------------------------------------------------------------------
// Title filter
// ---------------------------------------------------------------------------
/// Whether the filter pattern is a well-formed regular expression.
pub uninterp spec fn ci_pattern_ok(pattern: Seq<char>) -> bool;

/// Whether the case-insensitively compiled pattern matches somewhere in
/// the text.
pub uninterp spec fn ci_match(pattern: Seq<char>, text: Seq<char>) -> bool;

/// Relies on regex's `RegexBuilder` (with `case_insensitive`) and
/// `Regex::is_match`: whether the pattern compiles depends on the pattern
/// alone, and the match result on pattern and text alone.
#[verifier::external_body]
fn regex_ci_is_match(pattern: &str, text: &str) -> (r: Option<bool>)
    ensures
        r is Some <==> ci_pattern_ok(pattern@),
        match r {
            Some(b) => b == ci_match(pattern@, text@),
            None => true,
        },
{
    let re = regex::RegexBuilder::new(pattern).case_insensitive(true).build().ok()?;
    Some(re.is_match(text))
}

/// Whether the filter keeps this volume: it carries a title and the
/// pattern matches it case-insensitively; a volume with an absent title
/// never matches.
pub open spec fn filter_keep(pattern: Seq<char>, v: VolumeView) -> bool {
    match v.title {
        Some(t) => ci_match(pattern, t),
        None => false,
    }
}

/// The volumes the filter keeps, in order.
pub open spec fn filter_spec(pattern: Seq<char>, s: Seq<VolumeView>) -> Seq<VolumeView>
    decreases s.len(),
{
    if s.len() == 0 {
        Seq::empty()
    } else {
        filter_spec(pattern, s.drop_last()) + (if filter_keep(pattern, s.last()) {
            seq![s.last()]
        } else {
            Seq::empty()
        })
    }
}

/// Applies the case-insensitive title filter to the discovered volumes,
/// preserving order; volumes with an absent title are dropped. A pattern
/// that is not a well-formed regular expression is a parse error naming
/// it — exactly then does the filter fail.
pub fn filter_volumes(pattern: &str, vols: &Vec<Volume>) -> (r: Result<Vec<Volume>, NpError>)
    ensures
        r is Ok <==> ci_pattern_ok(pattern@),
        match r {
            Ok(kept) => vol_views(kept@) == filter_spec(pattern@, vol_views(vols@)),
            Err(e) => match e {
                NpError::Parse { what } => what@ == pattern@,
                _ => false,
            },
        },
{
    match regex_ci_is_match(pattern, "") {
        None => {
            return Err(NpError::Parse { what: pattern.to_owned() });
        },
        Some(_) => {},
    }
    let mut out: Vec<Volume> = Vec::new();
    let mut i: usize = 0;
    proof {
        assert(vol_views(vols@).subrange(0, 0) =~= Seq::<VolumeView>::empty());
    }
    while i < vols.len()
        invariant
            0 <= i <= vols@.len(),
            ci_pattern_ok(pattern@),
            vol_views(out@) == filter_spec(pattern@, vol_views(vols@).subrange(0, i as int)),
        decreases vols@.len() - i,
    {
        let ghost pre_out = vol_views(out@);
        let v = &vols[i];
        match &v.title {
            None => {},
            Some(t) => {
                match regex_ci_is_match(pattern, t.as_str()) {
                    Some(true) => {
                        out.push(clone_volume(v));
                        proof {
                            assert(vol_views(out@) =~= pre_out.push(v@));
                        }
                    },
                    Some(false) => {},
                    None => {
                        proof {
                            assert(false);
                        }
                    },
                }
            },
        }
        i += 1;
        proof {
            let sv = vol_views(vols@);
            assert(sv.subrange(0, i as int).drop_last() =~= sv.subrange(0, i - 1));
            assert(sv.subrange(0, i as int).last() == sv[i - 1]);
            assert(vol_views(out@) =~= filter_spec(pattern@, sv.subrange(0, i as int)));
        }
    }
    proof {
        assert(vol_views(vols@).subrange(0, vols@.len() as int) =~= vol_views(vols@));
    }
    Ok(out)
}

// ---------------------------------------------------------------------------
// Single-URL mode: volume-id parsing
// ---------------------------------------------------------------------------
/// The marker token whose following digits name a volume in a URL.
pub open spec fn id_marker() -> Seq<char> {
    "volumeNo="@
}

/// Whether the marker occurs at position `i` of the URL with at least one
/// digit immediately after it.
pub open spec fn id_match_at(s: Seq<char>, i: int) -> bool {
    match_at(s, id_marker(), i) && i + id_marker().len() < s.len() && is_digit_char(
        s[i + id_marker().len()],
    )
}

/// The maximal run of decimal digits at the head of the sequence.
pub open spec fn digits_run(s: Seq<char>) -> Seq<char>
    decreases s.len(),
{
    if s.len() > 0 && is_digit_char(s[0]) {
        seq![s[0]] + digits_run(s.drop_first())
    } else {
        Seq::empty()
    }
}

/// The maximal run of decimal digits of `u` starting at `start`.
fn take_digits(u: &Vec<char>, start: usize) -> (digits: Vec<char>)
    requires
        start <= u@.len(),
    ensures
        digits@ == digits_run(u@.skip(start as int)),
    decreases u@.len() - start,
{
    if start < u.len() {
        let c = u[start];
        let cu = c as u32;
        if 48 <= cu && cu <= 57 {
            let mut rest = take_digits(u, start + 1);
            let mut digits: Vec<char> = Vec::new();
            digits.push(c);
            digits.append(&mut rest);
            proof {
                let t = u@.skip(start as int);
                assert(t[0] == u@[start as int]);
                assert(t.drop_first() =~= u@.skip(start + 1));
                assert(digits@ =~= seq![u@[start as int]] + digits_run(u@.skip(start + 1)));
            }
            return digits;
        }
        proof {
            assert(u@.skip(start as int)[0] == u@[start as int]);
        }
        Vec::new()
    } else {
        proof {
            assert(u@.skip(start as int) =~= Seq::<char>::empty());
        }
        Vec::new()
    }
}

/// Parses a volume id out of an arbitrary URL: the maximal digit run
/// following the leftmost occurrence of the marker token that is followed
/// by at least one digit. A URL without such an occurrence is a parse
/// error naming the URL.
pub fn parse_volume_id(url: &str) -> (r: Result<String, NpError>)
    ensures
        match r {
            Ok(v) => exists|i: int|
                #[trigger] id_match_at(url@, i) && (forall|k: int|
                    0 <= k < i ==> !id_match_at(url@, k)) && v@ == digits_run(
                    url@.skip(i + id_marker().len()),
                ),
            Err(e) => (forall|i: int| !id_match_at(url@, i)) && (match e {
                NpError::Parse { what } => what@ == url@,
                _ => false,
            }),
        },
{
    let u = str_to_chars(url);
    let marker = str_to_chars("volumeNo=");
    let m = marker.len();
    let n = u.len();
    if m >= n {
        proof {
            assert forall|k: int| !id_match_at(url@, k) by {
                if id_match_at(url@, k) {
                    assert(0 <= k && k + id_marker().len() < url@.len());
                }
            }
        }
        return Err(NpError::Parse { what: url.to_owned() });
    }
    let mut i: usize = 0;
    while i < n - m
        invariant
            0 <= i <= n - m,
            u@ == url@,
            marker@ == id_marker(),
            m == marker@.len(),
            n == u@.len(),
            m < n,
            forall|k: int| 0 <= k < i ==> !id_match_at(url@, k),
        decreases n - m - i,
    {
        if check_match_at(&u, &marker, i) {
            let c = u[i + m];
            let cu = c as u32;
            if 48 <= cu && cu <= 57 {
                proof {
                    assert(is_digit_char(u@[i + m]));
                    assert(id_match_at(url@, i as int));
                }
                let start = i + m;
                let digits = take_digits(&u, start);
                return Ok(string_from_chars(&digits));
            }
        }
        i += 1;
    }
    proof {
        assert forall|k: int| !id_match_at(url@, k) by {
            if id_match_at(url@, k) {
                assert(0 <= k && k + id_marker().len() < url@.len());
                assert(k < n - m);
            }
        }
    }
    Err(NpError::Parse { what: url.to_owned() })
}

/// Law: deduplication keeps each id exactly once, and what it keeps for
/// an id is the sequence's first occurrence, metadata included.
pub proof fn lemma_dedup_unique(s: Seq<VolumeView>)
    ensures
        unique_ids(dedup_append_spec(Seq::empty(), s)),
        forall|id: Seq<char>|
            #[trigger] seq_has_id(dedup_append_spec(Seq::empty(), s), id) <==> seq_has_id(s, id),
        forall|i: int|
            0 <= i < dedup_append_spec(Seq::empty(), s).len() ==> exists|j: int|
                0 <= j < s.len() && s[j] == #[trigger] dedup_append_spec(Seq::empty(), s)[i] && (
                forall|k: int| 0 <= k < j ==> s[k].id != s[j].id),
{
    lemma_dedup_general(Seq::empty(), s);
    let d = dedup_append_spec(Seq::empty(), s);
    assert forall|id: Seq<char>| #[trigger] seq_has_id(d, id) <==> seq_has_id(s, id) by {
        assert(!seq_has_id(Seq::empty(), id));
    }
    assert forall|i: int| 0 <= i < d.len() implies exists|j: int|
        0 <= j < s.len() && s[j] == #[trigger] d[i] && (forall|k: int|
            0 <= k < j ==> s[k].id != s[j].id) by {
        let j = choose|j: int|
            0 <= j < s.len() && s[j] == d[i] && !seq_has_id(Seq::empty(), s[j].id) && (forall|
                k: int,
            | 0 <= k < j ==> s[k].id != s[j].id);
        assert(0 <= j < s.len() && s[j] == d[i] && (forall|k: int|
            0 <= k < j ==> s[k].id != s[j].id));
    }
}

/// Law: one discovery step keeps the accumulation sound — appending a
/// page to an accumulation of unique ids leaves the ids unique, and the
/// volumes already accumulated stay, unchanged, as a prefix in their
/// discovery order.
pub proof fn lemma_discovery_step_unique(acc: Seq<VolumeView>, new: Seq<VolumeView>)
    requires
        unique_ids(acc),
    ensures
        unique_ids(dedup_append_spec(acc, new)),
        dedup_append_spec(acc, new).len() >= acc.len(),
        dedup_append_spec(acc, new).subrange(0, acc.len() as int) == acc,
{
    lemma_dedup_general(acc, new);
}

proof fn lemma_dedup_general(acc: Seq<VolumeView>, new: Seq<VolumeView>)
    requires
        unique_ids(acc),
    ensures
        dedup_append_spec(acc, new).len() >= acc.len(),
        dedup_append_spec(acc, new).subrange(0, acc.len() as int) == acc,
        unique_ids(dedup_append_spec(acc, new)),
        forall|id: Seq<char>|
            #[trigger] seq_has_id(dedup_append_spec(acc, new), id) <==> seq_has_id(acc, id)
                || seq_has_id(new, id),
        forall|i: int|
            acc.len() <= i < dedup_append_spec(acc, new).len() ==> exists|j: int|
                0 <= j < new.len() && new[j] == #[trigger] dedup_append_spec(acc, new)[i]
                    && !seq_has_id(acc, new[j].id) && (forall|k: int|
                    0 <= k < j ==> new[k].id != new[j].id),
    decreases new.len(),
{
    let d = dedup_append_spec(acc, new);
    if new.len() == 0 {
        assert(d.subrange(0, acc.len() as int) =~= acc);
        assert forall|id: Seq<char>| #[trigger] seq_has_id(d, id) <==> seq_has_id(acc, id)
            || seq_has_id(new, id) by {
            assert(!seq_has_id(new, id));
        }
    } else {
        let v = new[0];
        let rest = new.drop_first();
        assert forall|id: Seq<char>|
            seq_has_id(new, id) <==> (id == v.id || seq_has_id(rest, id)) by {
            if seq_has_id(new, id) {
                let i = choose|i: int| 0 <= i < new.len() && new[i].id == id;
                if i == 0 {
                } else {
                    assert(rest[i - 1].id == id);
                }
            }
            if id == v.id {
                assert(new[0].id == id);
            }
            if seq_has_id(rest, id) {
                let i = choose|i: int| 0 <= i < rest.len() && rest[i].id == id;
                assert(new[i + 1].id == id);
            }
        }
        if seq_has_id(acc, v.id) {
            lemma_dedup_general(acc, rest);
            assert(d == dedup_append_spec(acc, rest));
            assert forall|i: int| acc.len() <= i < d.len() implies exists|j: int|
                0 <= j < new.len() && new[j] == #[trigger] d[i] && !seq_has_id(acc, new[j].id)
                    && (forall|k: int| 0 <= k < j ==> new[k].id != new[j].id) by {
                let j0 = choose|j0: int|
                    0 <= j0 < rest.len() && rest[j0] == d[i] && !seq_has_id(acc, rest[j0].id) && (
                    forall|k: int| 0 <= k < j0 ==> rest[k].id != rest[j0].id);
                let j = j0 + 1;
                assert(new[j] == rest[j0]);
                assert forall|k: int| 0 <= k < j implies new[k].id != new[j].id by {
                    if k == 0 {
                        assert(seq_has_id(acc, v.id));
                        assert(!seq_has_id(acc, new[j].id));
                    } else {
                        assert(rest[k - 1].id != rest[j0].id);
                    }
                }
            }
        } else {
            let acc2 = acc.push(v);
            assert forall|id: Seq<char>|
                seq_has_id(acc2, id) <==> (seq_has_id(acc, id) || id == v.id) by {
                if seq_has_id(acc2, id) {
                    let i = choose|i: int| 0 <= i < acc2.len() && acc2[i].id == id;
                    if i < acc.len() {
                        assert(acc[i].id == id);
                    }
                }
                if seq_has_id(acc, id) {
                    let i = choose|i: int| 0 <= i < acc.len() && acc[i].id == id;
                    assert(acc2[i].id == id);
                }
                if id == v.id {
                    assert(acc2[acc.len() as int].id == id);
                }
            }
            assert(unique_ids(acc2));
            lemma_dedup_general(acc2, rest);
            assert(d == dedup_append_spec(acc2, rest));
            assert(d.subrange(0, acc2.len() as int) == acc2);
            assert(d.subrange(0, acc.len() as int) =~= acc2.subrange(0, acc.len() as int));
            assert(acc2.subrange(0, acc.len() as int) =~= acc);
            assert forall|i: int| acc.len() <= i < d.len() implies exists|j: int|
                0 <= j < new.len() && new[j] == #[trigger] d[i] && !seq_has_id(acc, new[j].id)
                    && (forall|k: int| 0 <= k < j ==> new[k].id != new[j].id) by {
                if i == acc.len() {
                    assert(d[i] == d.subrange(0, acc2.len() as int)[i]);
                    assert(d[i] == v);
                    assert(new[0] == v);
                } else {
                    assert(acc2.len() <= i < d.len());
                    let j0 = choose|j0: int|
                        0 <= j0 < rest.len() && rest[j0] == d[i] && !seq_has_id(acc2, rest[j0].id)
                            && (forall|k: int| 0 <= k < j0 ==> rest[k].id != rest[j0].id);
                    let j = j0 + 1;
                    assert(new[j] == rest[j0]);
                    assert(!seq_has_id(acc, new[j].id));
                    assert forall|k: int| 0 <= k < j implies new[k].id != new[j].id by {
                        if k == 0 {
                            assert(rest[j0].id != v.id);
                        } else {
                            assert(rest[k - 1].id != rest[j0].id);
                        }
                    }
                }
            }
        }
    }
}

} // verus!
