//! The page manifest of a chapter: the ordered list of remote page files
//! that one metadata request yields.

use crate::json::{parsed_json, Json};
use vstd::prelude::*;
use vstd::string::*;

verus! {

/// One page of a chapter as the server lists it.
pub struct PageManifestEntry {
    /// Position in the manifest, counted from zero. It alone decides the
    /// place of the page in the assembled document.
    pub ordinal: usize,
    pub remote_filename: String,
}

/// The manifest of one chapter.
pub struct PageManifest {
    pub base_url: String,
    pub hash: String,
    pub entries: Vec<PageManifestEntry>,
}

/// Why the manifest of a chapter could not be resolved.
#[derive(Clone, Copy, Debug, PartialEq, Eq, Structural)]
pub enum MetadataError {
    /// The request got no response.
    Unreachable,
    /// The server answered with a status outside 200..=299.
    Status(u16),
    /// The body is no JSON text.
    NotJson,
    /// `baseUrl` is missing or no string.
    MissingBaseUrl,
    /// `chapter.hash` is missing or no string.
    MissingHash,
    /// `chapter.data` is missing or no array.
    MissingPages,
    /// The page name at this position of `chapter.data` is no string.
    BadPageName(usize),
}

impl PageManifest {
    /// Every entry carries its own position as its ordinal.
    pub open spec fn wf(&self) -> bool {
        forall|i: int| 0 <= i < self.entries.len() ==> (#[trigger] self.entries[i]).ordinal == i
    }
}

/// Whether `status` is a success status of HTTP.
pub open spec fn is_success(status: u16) -> bool {
    200 <= status <= 299
}

/// Decides whether `status` is a success status of HTTP.
pub fn success_status(status: u16) -> (r: bool)
    ensures
        r == is_success(status),
{
    200 <= status && status <= 299
}

/// The page list of a payload: the array `chapter.data`.
pub open spec fn pages_of(payload: Json) -> Option<Seq<Json>> {
    match payload.member_of("chapter"@) {
        Some(chapter) => chapter.items_of("data"@),
        None => None,
    }
}

/// The hash token of a payload: the string `chapter.hash`.
pub open spec fn hash_of(payload: Json) -> Option<Seq<char>> {
    match payload.member_of("chapter"@) {
        Some(chapter) => chapter.text_of("hash"@),
        None => None,
    }
}

/// Whether every item of `items` is a string.
pub open spec fn all_text(items: Seq<Json>) -> bool {
    forall|i: int| 0 <= i < items.len() ==> (#[trigger] items[i]) is Text
}

/// Whether `index` is the first position of `items` that holds no string.
pub open spec fn first_non_text(items: Seq<Json>, index: int) -> bool {
    &&& 0 <= index < items.len()
    &&& !(items[index] is Text)
    &&& forall|i: int| 0 <= i < index ==> (#[trigger] items[i]) is Text
}

/// Whether `manifest` holds exactly what `payload` states: its base
/// address, its hash token, and one entry for each page name, in order.
pub open spec fn describes(payload: Json, manifest: PageManifest) -> bool {
    &&& payload.text_of("baseUrl"@) == Some(manifest.base_url@)
    &&& hash_of(payload) == Some(manifest.hash@)
    &&& pages_of(payload) is Some
    &&& manifest.entries.len() == pages_of(payload)->0.len()
    &&& manifest.wf()
    &&& forall|i: int|
        0 <= i < manifest.entries.len() ==> (#[trigger] pages_of(payload)->0[i]) == Json::Text(
            manifest.entries[i].remote_filename,
        )
}

/// The defect for which `payload` is rejected, checked in the order base
/// address, hash token, page list, page names; `None` for a sound payload.
pub open spec fn defect_of(payload: Json, defect: Option<MetadataError>) -> bool {
    if payload.text_of("baseUrl"@) is None {
        defect == Some(MetadataError::MissingBaseUrl)
    } else if hash_of(payload) is None {
        defect == Some(MetadataError::MissingHash)
    } else if pages_of(payload) is None {
        defect == Some(MetadataError::MissingPages)
    } else if all_text(pages_of(payload)->0) {
        defect is None
    } else {
        defect matches Some(MetadataError::BadPageName(i)) && first_non_text(
            pages_of(payload)->0,
            i as int,
        )
    }
}

/// Reads the manifest out of a parsed payload. A sound payload gives the
/// manifest that it describes; any other gives its first defect.
pub fn manifest_from_json(payload: &Json) -> (r: Result<PageManifest, MetadataError>)
    ensures
        match r {
            Ok(manifest) => defect_of(*payload, None) && describes(*payload, manifest),
            Err(e) => defect_of(*payload, Some(e)),
        },
{
    let base_url = match payload.text("baseUrl") {
        Some(s) => s.clone(),
        None => {
            return Err(MetadataError::MissingBaseUrl);
        },
    };
    let chapter = match payload.member("chapter") {
        Some(c) => c,
        None => {
            return Err(MetadataError::MissingHash);
        },
    };
    let hash = match chapter.text("hash") {
        Some(s) => s.clone(),
        None => {
            return Err(MetadataError::MissingHash);
        },
    };
    let items = match chapter.items("data") {
        Some(items) => items,
        None => {
            return Err(MetadataError::MissingPages);
        },
    };
    let mut entries: Vec<PageManifestEntry> = Vec::new();
    let mut i: usize = 0;
    while i < items.len()
        invariant
            i <= items.len(),
            entries.len() == i,
            payload.text_of("baseUrl"@) == Some(base_url@),
            hash_of(*payload) == Some(hash@),
            pages_of(*payload) == Some(items@),
            forall|k: int| 0 <= k < i ==> (#[trigger] entries[k]).ordinal == k,
            forall|k: int|
                0 <= k < i ==> (#[trigger] items[k]) == Json::Text(entries[k].remote_filename),
        decreases items.len() - i,
    {
        match &items[i] {
            Json::Text(name) => {
                entries.push(PageManifestEntry { ordinal: i, remote_filename: name.clone() });
            },
            _ => {
                assert(!(items@[i as int] is Text));
                return Err(MetadataError::BadPageName(i));
            },
        }
        i = i + 1;
    }
    Ok(PageManifest { base_url, hash, entries })
}

/// What a metadata response resolves to once its body has been parsed:
/// the status decides first, then the parse, then the payload.
pub fn resolve_parsed(status: u16, parsed: Option<Json>) -> (r: Result<
    PageManifest,
    MetadataError,
>)
    ensures
        !is_success(status) ==> r == Err::<PageManifest, MetadataError>(
            MetadataError::Status(status),
        ),
        is_success(status) && parsed is None ==> r == Err::<PageManifest, MetadataError>(
            MetadataError::NotJson,
        ),
        is_success(status) && parsed is Some ==> match r {
            Ok(manifest) => defect_of(parsed->0, None) && describes(parsed->0, manifest),
            Err(e) => defect_of(parsed->0, Some(e)),
        },
{
    if !success_status(status) {
        return Err(MetadataError::Status(status));
    }
    match parsed {
        None => Err(MetadataError::NotJson),
        Some(payload) => manifest_from_json(&payload),
    }
}

/// Resolves the manifest of a chapter from the response to its metadata
/// request: the status and the raw body.
pub fn resolve_manifest(status: u16, body: &[u8]) -> (r: Result<PageManifest, MetadataError>)
    ensures
        !is_success(status) ==> r == Err::<PageManifest, MetadataError>(
            MetadataError::Status(status),
        ),
        is_success(status) && parsed_json(body@) is None ==> r == Err::<
            PageManifest,
            MetadataError,
        >(MetadataError::NotJson),
        is_success(status) && parsed_json(body@) is Some ==> match r {
            Ok(manifest) => defect_of(parsed_json(body@)->0, None) && describes(
                parsed_json(body@)->0,
                manifest,
            ),
            Err(e) => defect_of(parsed_json(body@)->0, Some(e)),
        },
{
    if !success_status(status) {
        return Err(MetadataError::Status(status));
    }
    resolve_parsed(status, Json::parse(body))
}

} // verus!
