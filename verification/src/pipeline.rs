//! The item pipeline: the per-volume state machine that decides skips,
//! extraction, download planning and the atomic commit. The driver
//! outside the library performs each returned action (an existence
//! probe, a fetch, the downloads into a temporary directory, the final
//! move) and feeds the outcome back as the next event.

use vstd::prelude::*;
use vstd::string::*;

use crate::error::NpError;
use crate::extract::{
    cleaned_meta, clip_parts, created_meta, extension_spec, extract_date, extract_date_spec,
    extract_extension, extract_images, extract_images_spec, extract_title, extract_title_spec,
    joined_decoded, real_body, str_views,
};
use crate::text::{all_digits, check_all_digits, pad3, pad3_spec, str_to_chars, string_from_chars};
use crate::volume::{AssetFile, Volume, VolumeView};

verus! {

/// The destination directory name of a volume: `{date}-{id}-{title}`.
pub open spec fn dir_name_spec(date: Seq<char>, id: Seq<char>, title: Seq<char>) -> Seq<char> {
    date + seq!['-'] + id + seq!['-'] + title
}

/// The destination directory name of a volume: `{date}-{id}-{title}`.
pub fn dir_name(date: &str, id: &str, title: &str) -> (r: String)
    ensures
        r@ == dir_name_spec(date@, id@, title@),
{
    let mut s = date.to_owned();
    s.append("-");
    s.append(id);
    s.append("-");
    s.append(title);
    proof {
        reveal_strlit("-");
        assert("-"@ =~= seq!['-']);
        assert(s@ =~= dir_name_spec(date@, id@, title@));
    }
    s
}

/// The destination directory a volume's own metadata already determines:
/// present exactly when the volume carries both title and date and the
/// date is purely numeric. Only then can a run skip without any network
/// access.
pub open spec fn skip_candidate_spec(v: VolumeView) -> Option<Seq<char>> {
    match (v.title, v.date) {
        (Some(t), Some(d)) => if all_digits(d) {
            Some(dir_name_spec(d, v.id, t))
        } else {
            None
        },
        _ => None,
    }
}

/// The destination directory determined by the volume's own metadata,
/// when complete and numeric-dated.
pub fn skip_candidate(v: &Volume) -> (r: Option<String>)
    ensures
        match r {
            Some(s) => skip_candidate_spec(v@) == Some(s@),
            None => skip_candidate_spec(v@) is None,
        },
{
    match (&v.title, &v.date) {
        (Some(t), Some(d)) => {
            let dc = str_to_chars(d.as_str());
            if check_all_digits(&dc) {
                Some(dir_name(d.as_str(), v.id.as_str(), t.as_str()))
            } else {
                None
            }
        },
        _ => None,
    }
}

/// The filename of asset `i` (0-based) of a volume:
/// `{date}-{id}-{title}-img{i+1:03}{ext}`, with the extension derived
/// from the asset's URL.
pub open spec fn asset_name_spec(
    date: Seq<char>,
    id: Seq<char>,
    title: Seq<char>,
    i: int,
    url: Seq<char>,
) -> Seq<char> {
    dir_name_spec(date, id, title) + "-img"@ + pad3_spec((i + 1) as nat) + extension_spec(url)
}

/// Plans the downloads of a volume's assets: each asset keeps its URL and
/// is assigned, before any transfer starts, the deterministic filename of
/// its ordinal position.
pub fn plan_assets(date: &str, id: &str, title: &str, urls: &Vec<String>) -> (r: Vec<AssetFile>)
    ensures
        r@.len() == urls@.len(),
        forall|i: int|
            0 <= i < r@.len() ==> (#[trigger] r@[i])@.name == asset_name_spec(
                date@,
                id@,
                title@,
                i,
                urls@[i]@,
            ) && r@[i]@.url == urls@[i]@,
{
    let mut r: Vec<AssetFile> = Vec::new();
    let mut i: usize = 0;
    let n = urls.len();
    while i < n
        invariant
            0 <= i <= n,
            n == urls@.len(),
            r@.len() == i,
            forall|j: int|
                0 <= j < i ==> (#[trigger] r@[j])@.name == asset_name_spec(
                    date@,
                    id@,
                    title@,
                    j,
                    urls@[j]@,
                ) && r@[j]@.url == urls@[j]@,
        decreases urls@.len() - i,
    {
        let url = &urls[i];
        let mut name = dir_name(date, id, title);
        name.append("-img");
        let ord = pad3(i + 1);
        let ord_str = string_from_chars(&ord);
        name.append(ord_str.as_str());
        let ext = extract_extension(url.as_str());
        name.append(ext.as_str());
        proof {
            assert(name@ =~= asset_name_spec(date@, id@, title@, i as int, urls@[i as int]@));
        }
        r.push(AssetFile { name, url: url.clone() });
        i += 1;
    }
    r
}

/// The canonical `(date, title)` of a detail page, when both meta tags
/// are present and the date is well-formed.
pub open spec fn detail_meta_spec(html: Seq<char>) -> Option<(Seq<char>, Seq<char>)> {
    match (extract_date_spec(html), extract_title_spec(html)) {
        (Some(d), Some(t)) => Some((d, t)),
        _ => None,
    }
}

/// The asset URLs of a detail page: those of its decoded content body.
pub open spec fn detail_assets_spec(html: Seq<char>) -> Seq<Seq<char>> {
    extract_images_spec(joined_decoded(clip_parts(html)))
}

/// The destination directory a detail page determines for volume `id`.
pub open spec fn detail_dir_spec(html: Seq<char>, id: Seq<char>) -> Seq<char>
    recommends
        detail_meta_spec(html) is Some,
{
    match detail_meta_spec(html) {
        Some(meta) => dir_name_spec(meta.0, id, meta.1),
        None => Seq::empty(),
    }
}

/// Whether every asset download succeeded.
pub open spec fn all_ok(results: Seq<bool>) -> bool {
    forall|k: int| 0 <= k < results.len() ==> results[k]
}

/// The per-volume pipeline states, in the order a successful run passes
/// them; `Skipped` and `Done` are terminal.
#[derive(Debug)]
pub enum ItemState {
    /// Awaiting the answer of the metadata-determined existence probe.
    CheckSkip { vol: Volume },
    /// Awaiting the fetched detail page of the volume.
    FetchDetail { id: String },
    /// Metadata and assets extracted; awaiting the answer of the
    /// canonical existence probe.
    CheckAgain { id: String, date: String, title: String, assets: Vec<String> },
    /// Awaiting the per-asset outcomes of the planned downloads.
    Downloading { id: String, date: String, title: String, assets: Vec<String> },
    /// Awaiting the outcome of the atomic move to the destination.
    Committing { dir: String },
    /// The destination already existed; nothing was fetched or written.
    Skipped,
    /// The run of this volume is complete.
    Done,
}

/// What the driver reports back to the pipeline.
#[derive(Debug)]
pub enum ItemEvent {
    /// Whether the probed destination directory exists.
    Exists(bool),
    /// The fetched detail page, or `None` on a network failure.
    Detail(Option<String>),
    /// Per-asset success of the planned downloads, in plan order.
    Downloaded(Vec<bool>),
    /// Whether the atomic move to the destination succeeded.
    Moved(bool),
}

/// What the driver must perform next.
#[derive(Debug)]
pub enum ItemAction {
    /// Probe whether this directory exists under the base directory.
    CheckExists(String),
    /// Fetch the detail page of this volume id.
    FetchDetail(String),
    /// Download each asset into a fresh temporary directory, under its
    /// assigned filename, with bounded concurrency.
    Download(Vec<AssetFile>),
    /// Move the temporary directory to this destination in one rename.
    Commit(String),
    /// Nothing: the volume's run has ended.
    Finish,
}

/// Whether an event can answer the pending state.
pub open spec fn compat(s: ItemState, e: ItemEvent) -> bool {
    match (s, e) {
        (ItemState::CheckSkip { .. }, ItemEvent::Exists(_)) => true,
        (ItemState::FetchDetail { .. }, ItemEvent::Detail(_)) => true,
        (ItemState::CheckAgain { .. }, ItemEvent::Exists(_)) => true,
        (ItemState::Downloading { assets, .. }, ItemEvent::Downloaded(results)) => results@.len()
            == assets@.len(),
        (ItemState::Committing { .. }, ItemEvent::Moved(_)) => true,
        _ => false,
    }
}

/// Begins the pipeline for one volume: when the volume's own metadata
/// already determines the destination, probe it first; otherwise fetch
/// the detail page at once.
pub fn start(vol: Volume) -> (r: (ItemState, ItemAction))
    ensures
        match skip_candidate_spec(vol@) {
            Some(dir) => (r.0 matches ItemState::CheckSkip { vol: v } && v@ == vol@) && (
            r.1 matches ItemAction::CheckExists(d) && d@ == dir),
            None => (r.0 matches ItemState::FetchDetail { id } && id@ == vol@.id) && (
            r.1 matches ItemAction::FetchDetail(i2) && i2@ == vol@.id),
        },
{
    match skip_candidate(&vol) {
        Some(dir) => (ItemState::CheckSkip { vol }, ItemAction::CheckExists(dir)),
        None => {
            let id2 = vol.id.clone();
            (ItemState::FetchDetail { id: vol.id }, ItemAction::FetchDetail(id2))
        },
    }
}

/// One transition of the item pipeline. Fatal outcomes — a failed fetch,
/// a structurally deficient page, any failed asset download, a failed
/// move — are errors; everything else advances toward `Done` or
/// `Skipped`. The commit action is produced only from `Downloading`, and
/// only when every asset succeeded.
#[verifier::loop_isolation(false)]
pub fn step(s: ItemState, e: ItemEvent) -> (r: Result<(ItemState, ItemAction), NpError>)
    requires
        compat(s, e),
    ensures
        match s {
            ItemState::CheckSkip { vol } => match e {
                ItemEvent::Exists(ex) => if ex {
                    r matches Ok(p) && p.0 is Skipped && p.1 is Finish
                } else {
                    r matches Ok(p) && (p.0 matches ItemState::FetchDetail { id } && id@
                        == vol@.id) && (p.1 matches ItemAction::FetchDetail(i2) && i2@ == vol@.id)
                },
                _ => true,
            },
            ItemState::FetchDetail { id } => match e {
                ItemEvent::Detail(opt) => match opt {
                    None => r matches Err(er) && (er matches NpError::Network { url } && url@
                        == id@),
                    Some(html) => match detail_meta_spec(html@) {
                        None => r matches Err(er) && (er matches NpError::Parse { what } && what@
                            == (match extract_date_spec(html@) {
                            None => match created_meta(html@) {
                                None => html@,
                                Some(raw) => cleaned_meta(raw),
                            },
                            Some(_) => html@,
                        })),
                        Some(meta) => r matches Ok(p) && (p.0 matches ItemState::CheckAgain {
                            id: i2,
                            date,
                            title,
                            assets,
                        } && i2@ == id@ && date@ == meta.0 && title@ == meta.1 && str_views(
                            assets@,
                        ) == detail_assets_spec(html@)) && (p.1
                            matches ItemAction::CheckExists(d) && d@ == detail_dir_spec(
                            html@,
                            id@,
                        )),
                    },
                },
                _ => true,
            },
            ItemState::CheckAgain { id, date, title, assets } => match e {
                ItemEvent::Exists(ex) => if ex {
                    r matches Ok(p) && p.0 is Skipped && p.1 is Finish
                } else if assets@.len() == 0 {
                    r matches Ok(p) && p.0 is Done && p.1 is Finish
                } else {
                    r matches Ok(p) && (p.0 matches ItemState::Downloading {
                        id: i2,
                        date: d2,
                        title: t2,
                        assets: a2,
                    } && i2 == id && d2 == date && t2 == title && a2 == assets) && (p.1
                        matches ItemAction::Download(plan) && plan@.len() == assets@.len() && (
                    forall|i: int|
                        0 <= i < plan@.len() ==> (#[trigger] plan@[i])@.name == asset_name_spec(
                            date@,
                            id@,
                            title@,
                            i,
                            assets@[i]@,
                        ) && plan@[i]@.url == assets@[i]@))
                },
                _ => true,
            },
            ItemState::Downloading { id, date, title, assets } => match e {
                ItemEvent::Downloaded(results) => if all_ok(results@) {
                    r matches Ok(p) && (p.0 matches ItemState::Committing { dir } && dir@
                        == dir_name_spec(date@, id@, title@)) && (p.1 matches ItemAction::Commit(
                        d2,
                    ) && d2@ == dir_name_spec(date@, id@, title@))
                } else {
                    r matches Err(er) && (er matches NpError::Network { url } && (exists|k: int|
                        0 <= k < results@.len() && !results@[k] && (forall|m: int|
                            0 <= m < k ==> results@[m]) && url@ == #[trigger] assets@[k]@))
                },
                _ => true,
            },
            ItemState::Committing { dir } => match e {
                ItemEvent::Moved(ok) => if ok {
                    r matches Ok(p) && p.0 is Done && p.1 is Finish
                } else {
                    r matches Err(er) && (er matches NpError::Filesystem { path } && path@ == dir@)
                },
                _ => true,
            },
            _ => true,
        },
{
    match s {
        ItemState::CheckSkip { vol } => match e {
            ItemEvent::Exists(ex) => {
                if ex {
                    Ok((ItemState::Skipped, ItemAction::Finish))
                } else {
                    let id2 = vol.id.clone();
                    Ok((ItemState::FetchDetail { id: vol.id }, ItemAction::FetchDetail(id2)))
                }
            },
            _ => {
                proof {
                    assert(false);
                }
                Err(NpError::Parse { what: String::new() })
            },
        },
        ItemState::FetchDetail { id } => match e {
            ItemEvent::Detail(opt) => match opt {
                None => Err(NpError::Network { url: id }),
                Some(html) => {
                    let date = match extract_date(html.as_str()) {
                        Ok(d) => d,
                        Err(er) => {
                            return Err(er);
                        },
                    };
                    let title = match extract_title(html.as_str()) {
                        Ok(t) => t,
                        Err(er) => {
                            return Err(er);
                        },
                    };
                    let body = real_body(html.as_str());
                    let assets = extract_images(body.as_str());
                    let dir = dir_name(date.as_str(), id.as_str(), title.as_str());
                    Ok(
                        (
                            ItemState::CheckAgain { id, date, title, assets },
                            ItemAction::CheckExists(dir),
                        ),
                    )
                },
            },
            _ => {
                proof {
                    assert(false);
                }
                Err(NpError::Parse { what: String::new() })
            },
        },
        ItemState::CheckAgain { id, date, title, assets } => match e {
            ItemEvent::Exists(ex) => {
                if ex {
                    Ok((ItemState::Skipped, ItemAction::Finish))
                } else if assets.len() == 0 {
                    Ok((ItemState::Done, ItemAction::Finish))
                } else {
                    let plan = plan_assets(date.as_str(), id.as_str(), title.as_str(), &assets);
                    Ok(
                        (
                            ItemState::Downloading { id, date, title, assets },
                            ItemAction::Download(plan),
                        ),
                    )
                }
            },
            _ => {
                proof {
                    assert(false);
                }
                Err(NpError::Parse { what: String::new() })
            },
        },
        ItemState::Downloading { id, date, title, assets } => match e {
            ItemEvent::Downloaded(results) => {
                let mut k: usize = 0;
                while k < results.len()
                    invariant
                        0 <= k <= results@.len(),
                        results@.len() == assets@.len(),
                        forall|m: int| 0 <= m < k ==> results@[m],
                    decreases results@.len() - k,
                {
                    if !results[k] {
                        let url = assets[k].clone();
                        proof {
                            assert(!results@[k as int]);
                            assert(!all_ok(results@));
                            assert((k as int) < results@.len() && !results@[k as int] && (forall|
                                m: int,
                            | 0 <= m < k as int ==> results@[m]) && url@ == assets@[k as int]@);
                        }
                        return Err(NpError::Network { url });
                    }
                    k += 1;
                }
                let dir = dir_name(date.as_str(), id.as_str(), title.as_str());
                let dir2 = dir.clone();
                Ok((ItemState::Committing { dir }, ItemAction::Commit(dir2)))
            },
            _ => {
                proof {
                    assert(false);
                }
                Err(NpError::Parse { what: String::new() })
            },
        },
        ItemState::Committing { dir } => match e {
            ItemEvent::Moved(ok) => {
                if ok {
                    Ok((ItemState::Done, ItemAction::Finish))
                } else {
                    Err(NpError::Filesystem { path: dir })
                }
            },
            _ => {
                proof {
                    assert(false);
                }
                Err(NpError::Parse { what: String::new() })
            },
        },
        _ => {
            proof {
                assert(false);
            }
            Err(NpError::Parse { what: String::new() })
        },
    }
}

/// Law: atomicity — one failed asset download among the results forbids
/// the commit: the commit branch of `step` requires every result to be
/// true, so the destination directory is never created from a partial
/// download (only the discarded temporary directory ever holds one).
pub proof fn lemma_failed_download_forbids_commit(results: Seq<bool>, k: int)
    requires
        0 <= k < results.len(),
        !results[k],
    ensures
        !all_ok(results),
{
}

/// Law: idempotence of the destination — the directory probed by the
/// canonical skip check after extraction and the directory the commit
/// later creates are the same value, a function of the canonical
/// `(date, id, title)` alone. A second run over the same volume
/// therefore probes the very directory an earlier completed run
/// committed, and on `Exists(true)` the `CheckSkip` and `CheckAgain`
/// transitions of `step` end it `Skipped`, before any download action;
/// no second directory for the same `(date, id, title)` can arise.
pub proof fn lemma_idempotent_destination(html: Seq<char>, id: Seq<char>)
    requires
        detail_meta_spec(html) is Some,
    ensures
        match detail_meta_spec(html) {
            Some(meta) => detail_dir_spec(html, id) == dir_name_spec(meta.0, id, meta.1),
            None => false,
        },
{
}

} // verus!
