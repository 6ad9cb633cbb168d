//! The latest-release document: what it says of the release's tag, assets
//! and notes, and which download and checksum an install uses.

use vstd::prelude::*;
use crate::json::{
    field_items, field_text, fields_view, get_items, get_pair_text, get_text, item_view,
    items_view, json_doc, pair_text, parse_json, FieldView, ItemView, JsonField, JsonItem,
};
use crate::text::str_eq;
use crate::update::{
    checksum_in_lines, newer, parse_sha256_text, release_acceptable, sidecar_name, split_on,
    strip_v, version_from_tag, version_numbers,
};

verus! {

/// A text field of the document, if present and a string.
pub open spec fn text_view(o: Option<String>) -> Option<Seq<char>> {
    match o {
        Some(s) => Some(s@),
        None => None,
    }
}

/// One entry of the release's asset list.
pub struct ReleaseAssetEntry {
    /// Its `name`, when that is a string.
    pub name: Option<String>,
    /// Its `browser_download_url`, when that is a string.
    pub url: Option<String>,
}

impl View for ReleaseAssetEntry {
    type V = (Option<Seq<char>>, Option<Seq<char>>);

    open spec fn view(&self) -> Self::V {
        (text_view(self.name), text_view(self.url))
    }
}

/// What a release document holds, field by field.
pub struct ReleaseDoc {
    /// `tag_name`, when a string.
    pub tag: Option<String>,
    /// `assets`, when a list.
    pub assets: Option<Vec<ReleaseAssetEntry>>,
    /// `body` (the release notes), when a string.
    pub notes: Option<String>,
}

/// The view of a release document: tag, asset (name, link) pairs, notes.
pub type ReleaseView = (
    Option<Seq<char>>,
    Option<Seq<(Option<Seq<char>>, Option<Seq<char>>)>>,
    Option<Seq<char>>,
);

impl View for ReleaseDoc {
    type V = ReleaseView;

    open spec fn view(&self) -> ReleaseView {
        (
            text_view(self.tag),
            match self.assets {
                Some(a) => Some(a@.map_values(|e: ReleaseAssetEntry| e@)),
                None => None,
            },
            text_view(self.notes),
        )
    }
}

/// What a release document's top-level fields say: `tag_name`, the
/// `assets` list (each entry's `name` and `browser_download_url`), `body`.
pub open spec fn release_view_of(fs: Seq<FieldView>) -> ReleaseView {
    (
        field_text(fs, "tag_name"@),
        match field_items(fs, "assets"@) {
            Some(items) => Some(items.map_values(|it: ItemView| asset_view_of(it))),
            None => None,
        },
        field_text(fs, "body"@),
    )
}

/// An asset entry: its `name` and `browser_download_url`, when it is an
/// object holding them as strings.
pub open spec fn asset_view_of(it: ItemView) -> (Option<Seq<char>>, Option<Seq<char>>) {
    match it.1 {
        Some(ps) => (pair_text(ps, "name"@), pair_text(ps, "browser_download_url"@)),
        None => (None, None),
    }
}

fn asset_entry_of(it: &JsonItem) -> (r: ReleaseAssetEntry)
    ensures
        r@ == asset_view_of(item_view(*it)),
{
    match &it.1 {
        Some(ps) => ReleaseAssetEntry {
            name: get_pair_text(ps, "name"),
            url: get_pair_text(ps, "browser_download_url"),
        },
        None => ReleaseAssetEntry { name: None, url: None },
    }
}

/// Takes what a release document's fields say.
pub fn release_doc_of(fs: &Vec<JsonField>) -> (r: ReleaseDoc)
    ensures
        r@ == release_view_of(fields_view(fs@)),
{
    let assets = match get_items(fs, "assets") {
        Some(items) => {
            let mut out: Vec<ReleaseAssetEntry> = Vec::new();
            let mut i: usize = 0;
            while i < items.len()
                invariant
                    0 <= i <= items.len(),
                    out.len() == i,
                    out@.map_values(|e: ReleaseAssetEntry| e@) == items_view(items@).take(
                        i as int,
                    ).map_values(|it: ItemView| asset_view_of(it)),
                decreases items.len() - i,
            {
                let e = asset_entry_of(&items[i]);
                let ghost prev = out@;
                let ghost iv = items_view(items@);
                out.push(e);
                assert(iv[i as int] == item_view(items@[i as int]));
                assert forall|k: int| 0 <= k < i implies #[trigger] out@[k]@ == asset_view_of(iv[k]) by {
                    assert(out@[k] == prev[k]);
                    assert(prev.map_values(|e: ReleaseAssetEntry| e@)[k] == iv.take(i as int).map_values(
                        |it: ItemView| asset_view_of(it),
                    )[k]);
                }
                assert(out@.map_values(|e: ReleaseAssetEntry| e@) =~= items_view(items@).take(
                    i + 1,
                ).map_values(|it: ItemView| asset_view_of(it)));
                i += 1;
            }
            assert(items_view(items@).take(items.len() as int) =~= items_view(items@));
            Some(out)
        },
        None => None,
    };
    let r = ReleaseDoc { tag: get_text(fs, "tag_name"), assets, notes: get_text(fs, "body") };
    assert(r@.1 =~= release_view_of(fields_view(fs@)).1);
    r
}

/// The index of the first asset named `target`.
pub open spec fn first_named(
    assets: Seq<(Option<Seq<char>>, Option<Seq<char>>)>,
    target: Seq<char>,
) -> Option<int>
    decreases assets.len(),
{
    if assets.len() == 0 {
        None
    } else if assets[0].0 == Some(target) {
        Some(0)
    } else {
        match first_named(assets.drop_first(), target) {
            Some(i) => Some(i + 1),
            None => None,
        }
    }
}

/// A release whose version is `latest` may be installed when `expected`
/// was offered and `running` runs: the same version, or newer than either.
pub open spec fn release_ok(expected: Seq<char>, latest: Seq<char>, running: Seq<char>) -> bool {
    latest == expected || newer(version_numbers(expected), version_numbers(latest)) || newer(
        version_numbers(running),
        version_numbers(latest),
    )
}

/// The link of the checksum file `<asset>.sha256`, if listed with one.
pub open spec fn sidecar_link(
    assets: Seq<(Option<Seq<char>>, Option<Seq<char>>)>,
    asset: Seq<char>,
) -> Option<Seq<char>> {
    match first_named(assets, asset + ".sha256"@) {
        Some(j) => assets[j].1,
        None => None,
    }
}

/// The checksum of `asset` that the release notes give, if any.
pub open spec fn notes_checksum(notes: Option<Seq<char>>, asset: Seq<char>) -> Option<Seq<char>> {
    match notes {
        Some(b) => checksum_in_lines(split_on(b, '\n'), asset),
        None => None,
    }
}

/// What an install of `asset` takes from a release document: the download
/// link, the checksum file's link and the checksum in the notes. `None`
/// when the document has no tag or no asset list, the release is not one
/// that may be installed, or the asset is missing or has no link.
pub open spec fn release_choice(
    doc: ReleaseView,
    expected: Seq<char>,
    running: Seq<char>,
    asset: Seq<char>,
) -> Option<(Seq<char>, Option<Seq<char>>, Option<Seq<char>>)> {
    match (doc.0, doc.1) {
        (Some(tag), Some(assets)) => if !release_ok(expected, strip_v(tag), running) {
            None
        } else {
            match first_named(assets, asset) {
                Some(i) => match assets[i].1 {
                    Some(url) => Some((url, sidecar_link(assets, asset), notes_checksum(doc.2, asset))),
                    None => None,
                },
                None => None,
            }
        },
        _ => None,
    }
}

/// The download an install uses.
pub struct AssetChoice {
    /// The asset's download link.
    pub url: String,
    /// The link of its checksum file, if the release lists one.
    pub sidecar_url: Option<String>,
    /// The checksum the release notes give for it, if any.
    pub notes_hash: Option<String>,
}

impl View for AssetChoice {
    type V = (Seq<char>, Option<Seq<char>>, Option<Seq<char>>);

    open spec fn view(&self) -> Self::V {
        (self.url@, text_view(self.sidecar_url), text_view(self.notes_hash))
    }
}

proof fn lemma_first_named_is(
    a: Seq<(Option<Seq<char>>, Option<Seq<char>>)>,
    t: Seq<char>,
    i: int,
)
    requires
        0 <= i <= a.len(),
        forall|k: int| 0 <= k < i ==> (#[trigger] a[k]).0 != Some(t),
        i < a.len() ==> a[i].0 == Some(t),
    ensures
        first_named(a, t) == if i < a.len() {
            Some(i)
        } else {
            None::<int>
        },
    decreases i,
{
    if i > 0 {
        let b = a.drop_first();
        assert(a[0].0 != Some(t));
        assert forall|k: int| 0 <= k < i - 1 implies (#[trigger] b[k]).0 != Some(t) by {
            assert(b[k] == a[k + 1]);
        }
        if i < a.len() {
            assert(b[i - 1] == a[i]);
        }
        lemma_first_named_is(b, t, i - 1);
    }
}

fn opt_text_clone(o: &Option<String>) -> (r: Option<String>)
    ensures
        text_view(r) == text_view(*o),
{
    match o {
        Some(s) => Some(s.clone()),
        None => None,
    }
}

/// The index of the first entry named `target`, as `first_named` says.
fn find_asset(assets: &Vec<ReleaseAssetEntry>, target: &str) -> (r: Option<usize>)
    ensures
        match r {
            Some(i) => i < assets.len() && first_named(
                assets@.map_values(|e: ReleaseAssetEntry| e@),
                target@,
            ) == Some(i as int),
            None => first_named(assets@.map_values(|e: ReleaseAssetEntry| e@), target@) is None,
        },
{
    let ghost a = assets@.map_values(|e: ReleaseAssetEntry| e@);
    let mut i: usize = 0;
    while i < assets.len()
        invariant
            0 <= i <= assets.len(),
            a == assets@.map_values(|e: ReleaseAssetEntry| e@),
            forall|k: int| 0 <= k < i ==> (#[trigger] a[k]).0 != Some(target@),
        decreases assets.len() - i,
    {
        let hit = match &assets[i].name {
            Some(n) => str_eq(n.as_str(), target),
            None => false,
        };
        assert(a[i as int] == assets@[i as int]@);
        if hit {
            proof {
                lemma_first_named_is(a, target@, i as int);
            }
            return Some(i);
        }
        i += 1;
    }
    proof {
        lemma_first_named_is(a, target@, i as int);
    }
    None
}

/// Chooses what an install of `asset` downloads from a release document,
/// when `expected` was offered and `running` runs: the asset's link, its
/// checksum file's link and the checksum the notes give.
pub fn pick_release_asset(doc: &ReleaseDoc, expected: &str, running: &str, asset: &str) -> (r: Option<
    AssetChoice,
>)
    ensures
        match release_choice(doc@, expected@, running@, asset@) {
            Some(c) => r matches Some(x) && x@ == c,
            None => r is None,
        },
{
    let tag = match &doc.tag {
        Some(t) => t,
        None => return None,
    };
    let assets = match &doc.assets {
        Some(a) => a,
        None => return None,
    };
    let latest = version_from_tag(tag.as_str());
    if !release_acceptable(expected, latest.as_str(), running) {
        return None;
    }
    let ghost a = assets@.map_values(|e: ReleaseAssetEntry| e@);
    let i = match find_asset(assets, asset) {
        Some(i) => i,
        None => return None,
    };
    assert(a[i as int] == assets@[i as int]@);
    let url = match &assets[i].url {
        Some(u) => u.clone(),
        None => return None,
    };
    let side = sidecar_name(asset);
    let sidecar_url = match find_asset(assets, side.as_str()) {
        Some(j) => {
            assert(a[j as int] == assets@[j as int]@);
            opt_text_clone(&assets[j].url)
        },
        None => None,
    };
    let notes_hash = match &doc.notes {
        Some(b) => parse_sha256_text(b.as_str(), asset),
        None => None,
    };
    Some(AssetChoice { url, sidecar_url, notes_hash })
}

/// Reads the latest-release document `text` and chooses the download for
/// `asset` (see `pick_release_asset`); `None` when the text is not JSON.
pub fn release_asset_from_text(text: &str, expected: &str, running: &str, asset: &str) -> (r:
    Option<AssetChoice>)
    ensures
        match json_doc(text@) {
            Some(f) => match release_choice(release_view_of(f), expected@, running@, asset@) {
                Some(c) => r matches Some(x) && x@ == c,
                None => r is None,
            },
            None => r is None,
        },
{
    match parse_json(text) {
        Some(fs) => pick_release_asset(&release_doc_of(&fs), expected, running, asset),
        None => None,
    }
}

/// The version a release document's tag names (without its leading `v`s).
pub open spec fn tag_version(doc: ReleaseView) -> Option<Seq<char>> {
    match doc.0 {
        Some(tag) => Some(strip_v(tag)),
        None => None,
    }
}

/// The version the latest-release document `text` announces: its tag
/// without the leading `v`s; `None` when the text is not JSON or has no tag.
pub fn latest_version_from_text(text: &str) -> (r: Option<String>)
    ensures
        match json_doc(text@) {
            Some(f) => text_view(r) == tag_version(release_view_of(f)),
            None => r is None,
        },
{
    match parse_json(text) {
        Some(fs) => match get_text(&fs, "tag_name") {
            Some(t) => Some(version_from_tag(t.as_str())),
            None => None,
        },
        None => None,
    }
}

/// The checksum an install verifies against: the one in the checksum file
/// when it was fetched and names the asset, else the one in the notes.
pub open spec fn chosen_checksum(
    sidecar_text: Option<Seq<char>>,
    asset: Seq<char>,
    notes_hash: Option<Seq<char>>,
) -> Option<Seq<char>> {
    match sidecar_text {
        Some(t) => match checksum_in_lines(split_on(t, '\n'), asset) {
            Some(h) => Some(h),
            None => notes_hash,
        },
        None => notes_hash,
    }
}

/// Picks the checksum to verify a download of `asset` against: from the
/// fetched checksum file `sidecar_text` if it names one, else `notes_hash`.
pub fn choose_checksum(sidecar_text: Option<&str>, asset: &str, notes_hash: Option<String>) -> (r:
    Option<String>)
    ensures
        text_view(r) == chosen_checksum(
            match sidecar_text {
                Some(t) => Some(t@),
                None => None,
            },
            asset@,
            text_view(notes_hash),
        ),
{
    match sidecar_text {
        Some(t) => match parse_sha256_text(t, asset) {
            Some(h) => Some(h),
            None => notes_hash,
        },
        None => notes_hash,
    }
}

} // verus!
