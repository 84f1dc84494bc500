//! The catalog of the provider as far as a download needs it: what a
//! search, an author record and a chapter feed say, and how the chapters
//! of a title are offered for choice.

use crate::json::{parsed_json, Json};
use crate::manifest::{is_success, success_status};
use crate::pipeline::Chapter;
use vstd::prelude::*;
use vstd::string::*;

verus! {

/// A title as a search lists it, before the names of its authors are known.
pub struct MangaEntry {
    pub id: String,
    pub title: String,
    pub description: String,
    pub author_ids: Vec<String>,
}

/// A title with the names of its authors.
pub struct Manga {
    pub id: String,
    pub title: String,
    pub description: String,
    pub author: String,
}

/// Why a payload of the catalog cannot be used.
#[derive(Clone, Copy, Debug, PartialEq, Eq, Structural)]
pub enum CatalogError {
    /// The server answered with a status outside 200..=299.
    Status(u16),
    /// The body is no JSON text.
    NotJson,
    /// The record at this position of the list has no identifier.
    MissingId(usize),
    /// The feed lists no chapter.
    NoChapters,
}

/// The address of the search for titles.
pub open spec fn search_url_of(base_url: Seq<char>) -> Seq<char> {
    base_url + "/manga"@
}

/// The address of the chapter feed of a title.
pub open spec fn feed_url_of(base_url: Seq<char>, manga_id: Seq<char>) -> Seq<char> {
    base_url + "/manga/"@ + manga_id + "/feed"@
}

/// The address of the record of an author.
pub open spec fn author_url_of(base_url: Seq<char>, author_id: Seq<char>) -> Seq<char> {
    base_url + "/author/"@ + author_id
}

/// Builds the address of the search for titles.
pub fn search_url(base_url: &str) -> (r: String)
    ensures
        r@ == search_url_of(base_url@),
{
    let mut out = String::from_str(base_url);
    out.append("/manga");
    out
}

/// Builds the address of the chapter feed of a title.
pub fn feed_url(base_url: &str, manga_id: &str) -> (r: String)
    ensures
        r@ == feed_url_of(base_url@, manga_id@),
{
    let mut out = String::from_str(base_url);
    out.append("/manga/");
    out.append(manga_id);
    out.append("/feed");
    out
}

/// Builds the address of the record of an author.
pub fn author_url(base_url: &str, author_id: &str) -> (r: String)
    ensures
        r@ == author_url_of(base_url@, author_id@),
{
    let mut out = String::from_str(base_url);
    out.append("/author/");
    out.append(author_id);
    out
}

/// The text of `found`, or `fallback` where nothing was found.
pub open spec fn text_or(found: Option<Seq<char>>, fallback: Seq<char>) -> Seq<char> {
    match found {
        Some(s) => s,
        None => fallback,
    }
}

fn owned_or(found: Option<&String>, fallback: &str) -> (r: String)
    ensures
        r@ == text_or(
            match found {
                Some(s) => Some(s@),
                None => None,
            },
            fallback@,
        ),
{
    match found {
        Some(s) => s.clone(),
        None => String::from_str(fallback),
    }
}

/// The name in the record of an author: the string
/// `data.attributes.name`.
pub fn author_name(payload: &Json) -> (r: Option<String>)
    ensures
        match r {
            Some(name) => payload.text_below("data"@, "attributes"@, "name"@) == Some(name@),
            None => payload.text_below("data"@, "attributes"@, "name"@) is None,
        },
{
    match payload.text_within("data", "attributes", "name") {
        Some(name) => Some(name.clone()),
        None => None,
    }
}

/// `names` joined by a comma and a space.
pub open spec fn joined(names: Seq<String>) -> Seq<char>
    decreases names.len(),
{
    if names.len() == 0 {
        Seq::empty()
    } else if names.len() == 1 {
        names[0]@
    } else {
        joined(names.drop_last()) + ", "@ + names.last()@
    }
}

/// The author line of a title: the names joined by a comma and a space,
/// or `Unknown author` where no name was found.
pub open spec fn author_line_of(names: Seq<String>) -> Seq<char> {
    if names.len() == 0 {
        "Unknown author"@
    } else {
        joined(names)
    }
}

/// Builds the author line of a title from the names that were found.
pub fn author_line(names: &Vec<String>) -> (r: String)
    ensures
        r@ == author_line_of(names@),
{
    if names.len() == 0 {
        return String::from_str("Unknown author");
    }
    let mut out = names[0].clone();
    let mut i: usize = 1;
    assert(names@.take(1) =~= seq![names@[0]]);
    while i < names.len()
        invariant
            1 <= i <= names.len(),
            out@ == joined(names@.take(i as int)),
        decreases names.len() - i,
    {
        out.append(", ");
        out.append(names[i].as_str());
        proof {
            let next = names@.take(i + 1);
            assert(next.drop_last() =~= names@.take(i as int));
            assert(next.last() == names@[i as int]);
        }
        i = i + 1;
    }
    assert(names@.take(names.len() as int) =~= names@);
    out
}

/// Whether `relation` names an author: its `type` is `author` and its
/// `id` is a string.
pub open spec fn is_author(relation: Json) -> bool {
    relation.text_of("type"@) == Some("author"@) && relation.text_of("id"@) is Some
}

/// The identifiers of the authors among the first `count` of `relations`,
/// in order.
pub open spec fn author_ids_among(relations: Seq<Json>, count: int) -> Seq<Seq<char>>
    decreases count,
{
    if count <= 0 {
        Seq::empty()
    } else if is_author(relations[count - 1]) {
        author_ids_among(relations, count - 1).push(relations[count - 1].text_of("id"@)->0)
    } else {
        author_ids_among(relations, count - 1)
    }
}

/// The identifiers of the authors of a title record: those of its
/// `relationships` that name an author. A record without the list has none.
pub open spec fn author_ids_of(record: Json) -> Seq<Seq<char>> {
    match record.items_of("relationships"@) {
        Some(relations) => author_ids_among(relations, relations.len() as int),
        None => Seq::empty(),
    }
}

/// The texts of `strings`.
pub open spec fn texts(strings: Seq<String>) -> Seq<Seq<char>> {
    Seq::new(strings.len(), |i: int| strings[i]@)
}

/// Reads the identifiers of the authors of a title record.
pub fn author_ids(record: &Json) -> (r: Vec<String>)
    ensures
        texts(r@) == author_ids_of(*record),
{
    let mut out: Vec<String> = Vec::new();
    let relations = match record.items("relationships") {
        Some(relations) => relations,
        None => {
            assert(texts(out@) =~= Seq::<Seq<char>>::empty());
            return out;
        },
    };
    let author = String::from_str("author");
    let mut i: usize = 0;
    assert(texts(out@) =~= author_ids_among(relations@, 0));
    while i < relations.len()
        invariant
            i <= relations.len(),
            author@ == "author"@,
            texts(out@) == author_ids_among(relations@, i as int),
        decreases relations.len() - i,
    {
        let kind = relations[i].text("type");
        let id = relations[i].text("id");
        let ghost before = out@;
        match (kind, id) {
            (Some(kind), Some(id)) => {
                if *kind == author {
                    out.push(id.clone());
                    assert(texts(out@) =~= texts(before).push(id@));
                }
            },
            _ => {},
        }
        i = i + 1;
    }
    out
}

/// Whether `entry` is what the title record `record` says: its
/// identifier, its English title and description with their fallbacks,
/// and the identifiers of its authors.
pub open spec fn entry_of(record: Json, entry: MangaEntry) -> bool {
    &&& record.text_of("id"@) == Some(entry.id@)
    &&& entry.title@ == text_or(record.text_below("attributes"@, "title"@, "en"@), "No title"@)
    &&& entry.description@ == text_or(
        record.text_below("attributes"@, "description"@, "en"@),
        "No description"@,
    )
    &&& texts(entry.author_ids@) == author_ids_of(record)
}

/// The records of a payload: the array `data`, or no record where the
/// payload has no such array.
pub open spec fn records_of(payload: Json) -> Seq<Json> {
    match payload.items_of("data"@) {
        Some(records) => records,
        None => Seq::empty(),
    }
}

/// Whether `index` is the first record of `records` without an identifier.
pub open spec fn first_without_id(records: Seq<Json>, index: int) -> bool {
    &&& 0 <= index < records.len()
    &&& records[index].text_of("id"@) is None
    &&& forall|i: int| 0 <= i < index ==> (#[trigger] records[i]).text_of("id"@) is Some
}

/// Whether `r` is what the search payload `payload` lists: one entry for
/// each record, in order, or the first record without an identifier.
pub open spec fn lists_entries(payload: Json, r: Result<Vec<MangaEntry>, CatalogError>) -> bool {
    match r {
        Ok(entries) => {
            &&& entries.len() == records_of(payload).len()
            &&& forall|i: int|
                0 <= i < entries.len() ==> entry_of(#[trigger] records_of(payload)[i], entries[i])
        },
        Err(e) => e matches CatalogError::MissingId(index) && first_without_id(
            records_of(payload),
            index as int,
        ),
    }
}

/// Whether `r` is what the reply to a search resolves to: the status
/// decides first, then the parse, then the payload.
pub open spec fn search_resolves(
    status: u16,
    parsed: Option<Json>,
    r: Result<Vec<MangaEntry>, CatalogError>,
) -> bool {
    if !is_success(status) {
        r matches Err(e) && e == CatalogError::Status(status)
    } else {
        match parsed {
            None => r matches Err(e) && e == CatalogError::NotJson,
            Some(payload) => lists_entries(payload, r),
        }
    }
}

/// Reads the titles that a search lists, in the order of the list. A
/// record without an identifier makes the payload unusable.
pub fn manga_entries(payload: &Json) -> (r: Result<Vec<MangaEntry>, CatalogError>)
    ensures
        lists_entries(*payload, r),
{
    let mut out: Vec<MangaEntry> = Vec::new();
    let records = match payload.items("data") {
        Some(records) => records,
        None => {
            return Ok(out);
        },
    };
    let mut i: usize = 0;
    while i < records.len()
        invariant
            i <= records.len(),
            records@ == records_of(*payload),
            out.len() == i,
            forall|k: int| 0 <= k < i ==> entry_of(#[trigger] records@[k], out[k]),
        decreases records.len() - i,
    {
        let record = &records[i];
        let id = match record.text("id") {
            Some(id) => id.clone(),
            None => {
                return Err(CatalogError::MissingId(i));
            },
        };
        let title = owned_or(record.text_within("attributes", "title", "en"), "No title");
        let description = owned_or(
            record.text_within("attributes", "description", "en"),
            "No description",
        );
        let author_ids = author_ids(record);
        out.push(MangaEntry { id, title, description, author_ids });
        i = i + 1;
    }
    Ok(out)
}

/// Completes the entry of a title with the names of its authors.
pub fn manga_with_authors(entry: MangaEntry, names: &Vec<String>) -> (r: Manga)
    ensures
        r.id == entry.id,
        r.title == entry.title,
        r.description == entry.description,
        r.author@ == author_line_of(names@),
{
    Manga {
        id: entry.id,
        title: entry.title,
        description: entry.description,
        author: author_line(names),
    }
}

/// Whether `chapter` is what the feed record `record` says: its
/// identifier, and its number and name with their fallbacks.
pub open spec fn chapter_of(record: Json, chapter: Chapter) -> bool {
    &&& record.text_of("id"@) == Some(chapter.id@)
    &&& chapter.number@ == text_or(record.text_under("attributes"@, "chapter"@), "N/A"@)
    &&& chapter.display_name@ == text_or(record.text_under("attributes"@, "title"@), ""@)
}

/// Whether `r` is what the feed payload `payload` lists: one chapter for
/// each record, in order and at least one, or the first record without
/// an identifier, or that the feed is empty.
pub open spec fn lists_chapters(payload: Json, r: Result<Vec<Chapter>, CatalogError>) -> bool {
    match r {
        Ok(chapters) => {
            &&& chapters.len() == records_of(payload).len()
            &&& chapters.len() > 0
            &&& forall|i: int|
                0 <= i < chapters.len() ==> chapter_of(
                    #[trigger] records_of(payload)[i],
                    chapters[i],
                )
        },
        Err(CatalogError::MissingId(index)) => first_without_id(records_of(payload), index as int),
        Err(CatalogError::NoChapters) => records_of(payload).len() == 0,
        Err(_) => false,
    }
}

/// Whether `r` is what the reply to a feed request resolves to: the
/// status decides first, then the parse, then the payload.
pub open spec fn feed_resolves(
    status: u16,
    parsed: Option<Json>,
    r: Result<Vec<Chapter>, CatalogError>,
) -> bool {
    if !is_success(status) {
        r matches Err(e) && e == CatalogError::Status(status)
    } else {
        match parsed {
            None => r matches Err(e) && e == CatalogError::NotJson,
            Some(payload) => lists_chapters(payload, r),
        }
    }
}

/// Reads the chapters that a feed lists, in the order of the feed. A feed
/// without chapters, or with a record without an identifier, is unusable.
pub fn chapters_of_feed(payload: &Json) -> (r: Result<Vec<Chapter>, CatalogError>)
    ensures
        lists_chapters(*payload, r),
{
    let mut out: Vec<Chapter> = Vec::new();
    let records = match payload.items("data") {
        Some(records) => records,
        None => {
            return Err(CatalogError::NoChapters);
        },
    };
    let mut i: usize = 0;
    while i < records.len()
        invariant
            i <= records.len(),
            records@ == records_of(*payload),
            out.len() == i,
            forall|k: int| 0 <= k < i ==> chapter_of(#[trigger] records@[k], out[k]),
        decreases records.len() - i,
    {
        let record = &records[i];
        let id = match record.text("id") {
            Some(id) => id.clone(),
            None => {
                return Err(CatalogError::MissingId(i));
            },
        };
        let number = owned_or(record.text_in("attributes", "chapter"), "N/A");
        let display_name = owned_or(record.text_in("attributes", "title"), "");
        out.push(Chapter { id, number, display_name });
        i = i + 1;
    }
    if out.len() == 0 {
        return Err(CatalogError::NoChapters);
    }
    Ok(out)
}

/// What the reply to a search resolves to once its body has been parsed:
/// the status decides first, then the parse, then the payload.
pub fn resolve_search(status: u16, parsed: Option<Json>) -> (r: Result<
    Vec<MangaEntry>,
    CatalogError,
>)
    ensures
        search_resolves(status, parsed, r),
{
    if !success_status(status) {
        return Err(CatalogError::Status(status));
    }
    match parsed {
        None => Err(CatalogError::NotJson),
        Some(payload) => manga_entries(&payload),
    }
}

/// Resolves the titles of a search from the reply to its request: the
/// status and the raw body.
pub fn search_results(status: u16, body: &[u8]) -> (r: Result<Vec<MangaEntry>, CatalogError>)
    ensures
        search_resolves(status, parsed_json(body@), r),
{
    resolve_search(status, Json::parse(body))
}

/// What the reply to a feed request resolves to once its body has been
/// parsed: the status decides first, then the parse, then the payload.
pub fn resolve_feed(status: u16, parsed: Option<Json>) -> (r: Result<Vec<Chapter>, CatalogError>)
    ensures
        feed_resolves(status, parsed, r),
{
    if !success_status(status) {
        return Err(CatalogError::Status(status));
    }
    match parsed {
        None => Err(CatalogError::NotJson),
        Some(payload) => chapters_of_feed(&payload),
    }
}

/// Resolves the chapters of a title from the reply to its feed request:
/// the status and the raw body.
pub fn feed_chapters(status: u16, body: &[u8]) -> (r: Result<Vec<Chapter>, CatalogError>)
    ensures
        feed_resolves(status, parsed_json(body@), r),
{
    resolve_feed(status, Json::parse(body))
}

/// The name that a reply to an author request gives: that of its record,
/// where the status is a success and the body parses; else none.
pub open spec fn author_name_in(status: u16, parsed: Option<Json>) -> Option<Seq<char>> {
    if !is_success(status) {
        None
    } else {
        match parsed {
            Some(payload) => payload.text_below("data"@, "attributes"@, "name"@),
            None => None,
        }
    }
}

/// What the reply to an author request resolves to once its body has
/// been parsed. A reply without a usable name gives none; the title then
/// goes without this author.
pub fn resolve_author(status: u16, parsed: Option<Json>) -> (r: Option<String>)
    ensures
        match r {
            Some(name) => author_name_in(status, parsed) == Some(name@),
            None => author_name_in(status, parsed) is None,
        },
{
    if !success_status(status) {
        return None;
    }
    match parsed {
        Some(payload) => author_name(&payload),
        None => None,
    }
}

/// Resolves the name of an author from the reply to the request for the
/// author's record: the status and the raw body.
pub fn author_of_reply(status: u16, body: &[u8]) -> (r: Option<String>)
    ensures
        match r {
            Some(name) => author_name_in(status, parsed_json(body@)) == Some(name@),
            None => author_name_in(status, parsed_json(body@)) is None,
        },
{
    resolve_author(status, Json::parse(body))
}

/// The value of the decimal digit `c`; `None` for any other character.
pub open spec fn digit_value(c: char) -> Option<nat> {
    let v = c as u32;
    if 48 <= v <= 57 {
        Some((v - 48) as nat)
    } else {
        None
    }
}

/// The number that the decimal digits `s` write; `None` where `s` holds
/// anything but digits.
pub open spec fn digits_value(s: Seq<char>) -> Option<nat>
    decreases s.len(),
{
    if s.len() == 0 {
        Some(0)
    } else {
        match (digits_value(s.drop_last()), digit_value(s.last())) {
            (Some(v), Some(d)) => Some(10 * v + d),
            _ => None,
        }
    }
}

/// The chapter number that `s` writes: an optional plus sign and then at
/// least one decimal digit and nothing else, for a number that fits into
/// 32 bits.
pub open spec fn number_of(s: Seq<char>) -> Option<u32> {
    let digits = if s.len() > 0 && s[0] == '+' {
        s.drop_first()
    } else {
        s
    };
    if digits.len() == 0 {
        None
    } else {
        match digits_value(digits) {
            Some(v) => if v <= u32::MAX {
                Some(v as u32)
            } else {
                None
            },
            None => None,
        }
    }
}

proof fn lemma_digits_prefix(s: Seq<char>, k: int)
    requires
        0 <= k <= s.len(),
        digits_value(s) is Some,
    ensures
        digits_value(s.take(k)) is Some,
        digits_value(s.take(k))->0 <= digits_value(s)->0,
        k < s.len() ==> digit_value(s[k]) is Some,
    decreases s.len(),
{
    if k == s.len() {
        assert(s.take(k) =~= s);
    } else {
        assert(s.drop_last().take(k) =~= s.take(k));
        lemma_digits_prefix(s.drop_last(), k);
    }
}

/// Reads a chapter number.
pub fn parse_number(s: &str) -> (r: Option<u32>)
    ensures
        r == number_of(s@),
{
    let mut value: u64 = 0;
    let mut first = true;
    let mut seen = false;
    let ghost mut start: int = 0;
    for c in it: s.chars()
        invariant
            it.seq() == s@,
            first == (it.index() == 0),
            0 <= start <= it.index(),
            start <= 1,
            start == 1 ==> s@[0] == '+',
            start == 0 && it.index() > 0 ==> s@[0] != '+',
            seen == (it.index() > start),
            value <= u32::MAX,
            digits_value(s@.subrange(start, it.index() as int)) == Some(value as nat),
    {
        let ghost index = it.index() as int;
        if first && c == '+' {
            proof {
                start = 1;
                assert(s@.subrange(1, 1) =~= Seq::<char>::empty());
            }
        } else {
            let v: u32 = c as u32;
            let ghost digits = s@.skip(start);
            assert(s@.subrange(start, index) =~= digits.take(index - start));
            assert(digits =~= if s@.len() > 0 && s@[0] == '+' {
                s@.drop_first()
            } else {
                s@
            });
            if v < 48 || v > 57 {
                proof {
                    if digits_value(digits) is Some {
                        lemma_digits_prefix(digits, index - start);
                    }
                }
                return None;
            }
            let d: u64 = (v - 48) as u64;
            value = value * 10 + d;
            proof {
                let next = s@.subrange(start, index + 1);
                assert(next.drop_last() =~= s@.subrange(start, index));
                assert(next.last() == c);
                assert(next =~= digits.take(index + 1 - start));
            }
            if value > 4294967295 {
                proof {
                    if digits_value(digits) is Some {
                        lemma_digits_prefix(digits, index + 1 - start);
                    }
                }
                return None;
            }
            seen = true;
        }
        first = false;
    }
    proof {
        let digits = s@.skip(start);
        assert(s@.subrange(start, s@.len() as int) =~= digits);
        assert(digits =~= if s@.len() > 0 && s@[0] == '+' {
            s@.drop_first()
        } else {
            s@
        });
    }
    if seen {
        Some(value as u32)
    } else {
        None
    }
}

/// The first eight characters of `s`, or all of it where it is shorter.
pub open spec fn short_id(s: Seq<char>) -> Seq<char> {
    if s.len() <= 8 {
        s
    } else {
        s.take(8)
    }
}

/// The line under which a chapter is offered for choice.
pub open spec fn chapter_label_of(chapter: Chapter) -> Seq<char> {
    "Chapter "@ + chapter.number@ + ": "@ + chapter.display_name@ + " (ID: "@ + short_id(
        chapter.id@,
    ) + ")"@
}

/// Builds the line under which a chapter is offered for choice.
pub fn chapter_label(chapter: &Chapter) -> (r: String)
    ensures
        r@ == chapter_label_of(*chapter),
{
    let mut out = String::from_str("Chapter ");
    out.append(chapter.number.as_str());
    out.append(": ");
    out.append(chapter.display_name.as_str());
    out.append(" (ID: ");
    let ghost head = out@;
    let mut taken: usize = 0;
    for c in it: chapter.id.as_str().chars()
        invariant
            it.seq() == chapter.id@,
            taken == if it.index() <= 8 {
                it.index()
            } else {
                8
            },
            out@ == head + chapter.id@.take(taken as int),
    {
        if taken < 8 {
            out.push(c);
            taken = taken + 1;
            assert(out@ =~= head + chapter.id@.take(taken as int));
        }
    }
    assert(chapter.id@.take(taken as int) =~= short_id(chapter.id@));
    out.append(")");
    out
}

/// A chapter as it is offered for choice.
pub struct ChapterOption {
    /// The chapter number, by which the offers are sorted.
    pub number: u32,
    pub label: String,
    /// The position of the chapter in the list that it was taken from.
    pub index: usize,
}

/// Whether `first` is offered before `second`: by rising number, and by
/// position in the list among chapters of one number.
pub open spec fn offered_before(first: ChapterOption, second: ChapterOption) -> bool {
    first.number < second.number || (first.number == second.number && first.index < second.index)
}

/// Whether `options` offers the chapters of `chapters` that have a
/// number, each once, with its number and label, sorted by number, and in
/// list order among chapters of one number.
pub open spec fn offers(options: Seq<ChapterOption>, chapters: Seq<Chapter>) -> bool {
    &&& forall|a: int, b: int|
        0 <= a < b < options.len() ==> offered_before(options[a], options[b])
    &&& forall|k: int|
        0 <= k < options.len() ==> {
            let option = #[trigger] options[k];
            &&& option.index < chapters.len()
            &&& number_of(chapters[option.index as int].number@) == Some(option.number)
            &&& option.label@ == chapter_label_of(chapters[option.index as int])
        }
    &&& forall|i: int|
        0 <= i < chapters.len() && number_of((#[trigger] chapters[i]).number@) is Some
            ==> exists|k: int| 0 <= k < options.len() && options[k].index == i
}

/// Offers the chapters of a title for choice: those whose number can be
/// read, sorted by number. Chapters of one number keep their list order.
pub fn chapter_options(chapters: &Vec<Chapter>) -> (r: Vec<ChapterOption>)
    ensures
        offers(r@, chapters@),
{
    let mut out: Vec<ChapterOption> = Vec::new();
    let mut i: usize = 0;
    while i < chapters.len()
        invariant
            i <= chapters.len(),
            offers(out@, chapters@.take(i as int)),
        decreases chapters.len() - i,
    {
        let ghost before = out@;
        let ghost seen = chapters@.take(i as int);
        let ghost next = chapters@.take(i + 1);
        match parse_number(chapters[i].number.as_str()) {
            Some(number) => {
                let mut pos: usize = 0;
                while pos < out.len() && out[pos].number <= number
                    invariant
                        pos <= out.len(),
                        forall|k: int| 0 <= k < pos ==> out[k].number <= number,
                    decreases out.len() - pos,
                {
                    pos = pos + 1;
                }
                let option = ChapterOption { number, label: chapter_label(&chapters[i]), index: i };
                out.insert(pos, option);
                proof {
                    assert forall|a: int, b: int| 0 <= a < b < out@.len() implies offered_before(
                        out@[a],
                        out@[b],
                    ) by {
                        let x = if a < pos {
                            a
                        } else {
                            a - 1
                        };
                        let y = if b < pos {
                            b
                        } else {
                            b - 1
                        };
                        if a != pos && b != pos {
                            assert(out@[a] == before[x]);
                            assert(out@[b] == before[y]);
                            assert(offered_before(before[x], before[y]));
                        } else if a == pos {
                            assert(out@[b] == before[y]);
                            if pos < y {
                                assert(offered_before(before[pos as int], before[y]));
                            }
                        } else {
                            assert(out@[a] == before[x]);
                            assert(before[x].index < seen.len());
                        }
                    }
                    assert forall|k: int| 0 <= k < out@.len() implies {
                        let option = #[trigger] out@[k];
                        &&& option.index < next.len()
                        &&& number_of(next[option.index as int].number@) == Some(option.number)
                        &&& option.label@ == chapter_label_of(next[option.index as int])
                    } by {
                        if k != pos {
                            let x = if k < pos {
                                k
                            } else {
                                k - 1
                            };
                            assert(out@[k] == before[x]);
                            assert(next[before[x].index as int] == seen[before[x].index as int]);
                        }
                    }
                    assert forall|j: int|
                        0 <= j < next.len() && number_of((#[trigger] next[j]).number@)
                            is Some implies exists|k: int|
                        0 <= k < out@.len() && out@[k].index == j by {
                        if j < i {
                            assert(seen[j] == next[j]);
                            let k0 = choose|k: int| 0 <= k < before.len() && before[k].index == j;
                            let k1 = if k0 < pos {
                                k0
                            } else {
                                k0 + 1
                            };
                            assert(out@[k1] == before[k0]);
                        } else {
                            assert(out@[pos as int].index == j);
                        }
                    }
                }
            },
            None => {
                proof {
                    assert forall|k: int| 0 <= k < out@.len() implies {
                        let option = #[trigger] out@[k];
                        &&& option.index < next.len()
                        &&& number_of(next[option.index as int].number@) == Some(option.number)
                        &&& option.label@ == chapter_label_of(next[option.index as int])
                    } by {
                        assert(next[out@[k].index as int] == seen[out@[k].index as int]);
                    }
                    assert forall|j: int|
                        0 <= j < next.len() && number_of((#[trigger] next[j]).number@)
                            is Some implies exists|k: int|
                        0 <= k < out@.len() && out@[k].index == j by {
                        assert(j < i);
                        assert(seen[j] == next[j]);
                    }
                }
            },
        }
        i = i + 1;
    }
    assert(chapters@.take(chapters.len() as int) =~= chapters@);
    out
}

/// Whether `selection` holds the line `label`.
pub open spec fn selected(selection: Seq<String>, label: Seq<char>) -> bool {
    exists|i: int| 0 <= i < selection.len() && (#[trigger] selection[i])@ == label
}

/// Whether `index` is the first chapter of `chapters` with number `number`.
pub open spec fn first_numbered(chapters: Seq<Chapter>, number: u32, index: int) -> bool {
    &&& 0 <= index < chapters.len()
    &&& number_of(chapters[index].number@) == Some(number)
    &&& forall|j: int| 0 <= j < index ==> number_of((#[trigger] chapters[j]).number@) != Some(number)
}

/// The chapter that stands for `number`: the first of `chapters` with
/// this number, if there is one.
pub open spec fn chapter_numbered(chapters: Seq<Chapter>, number: u32) -> Option<Chapter> {
    if exists|i: int| first_numbered(chapters, number, i) {
        Some(chapters[choose|i: int| first_numbered(chapters, number, i)])
    } else {
        None
    }
}

/// The chapters chosen among the first `count` of `options`: for each
/// option whose label is in `selection`, in the order of the options, the
/// chapter that stands for its number.
pub open spec fn chosen_among(
    chapters: Seq<Chapter>,
    options: Seq<ChapterOption>,
    selection: Seq<String>,
    count: int,
) -> Seq<Chapter>
    decreases count,
{
    if count <= 0 {
        Seq::empty()
    } else {
        let rest = chosen_among(chapters, options, selection, count - 1);
        let option = options[count - 1];
        if selected(selection, option.label@) {
            match chapter_numbered(chapters, option.number) {
                Some(chapter) => rest.push(chapter),
                None => rest,
            }
        } else {
            rest
        }
    }
}

fn is_selected(selection: &Vec<String>, label: &String) -> (r: bool)
    ensures
        r == selected(selection@, label@),
{
    let mut i: usize = 0;
    while i < selection.len()
        invariant
            i <= selection.len(),
            forall|k: int| 0 <= k < i ==> (#[trigger] selection[k])@ != label@,
        decreases selection.len() - i,
    {
        if selection[i] == *label {
            return true;
        }
        i = i + 1;
    }
    false
}

fn find_numbered(chapters: &Vec<Chapter>, number: u32) -> (r: Option<usize>)
    ensures
        match r {
            Some(index) => first_numbered(chapters@, number, index as int) && chapter_numbered(
                chapters@,
                number,
            ) == Some(chapters[index as int]),
            None => chapter_numbered(chapters@, number) is None,
        },
{
    let mut i: usize = 0;
    while i < chapters.len()
        invariant
            i <= chapters.len(),
            forall|j: int| 0 <= j < i ==> number_of((#[trigger] chapters[j]).number@) != Some(number),
        decreases chapters.len() - i,
    {
        if parse_number(chapters[i].number.as_str()) == Some(number) {
            proof {
                assert(first_numbered(chapters@, number, i as int));
                let c = choose|c: int| first_numbered(chapters@, number, c);
                assert(c == i);
            }
            return Some(i);
        }
        i = i + 1;
    }
    None
}

/// Takes the chosen chapters out of the list: `selection` holds the
/// labels that were picked among `options`. The chapters come in the
/// order of the options, that is by rising number.
pub fn chosen_chapters(
    chapters: &Vec<Chapter>,
    options: &Vec<ChapterOption>,
    selection: &Vec<String>,
) -> (r: Vec<Chapter>)
    ensures
        r@ == chosen_among(chapters@, options@, selection@, options.len() as int),
{
    let mut out: Vec<Chapter> = Vec::new();
    let mut k: usize = 0;
    while k < options.len()
        invariant
            k <= options.len(),
            out@ == chosen_among(chapters@, options@, selection@, k as int),
        decreases options.len() - k,
    {
        if is_selected(selection, &options[k].label) {
            match find_numbered(chapters, options[k].number) {
                Some(index) => {
                    let chapter = &chapters[index];
                    out.push(
                        Chapter {
                            id: chapter.id.clone(),
                            number: chapter.number.clone(),
                            display_name: chapter.display_name.clone(),
                        },
                    );
                },
                None => {},
            }
        }
        k = k + 1;
    }
    out
}

/// The block of lines under which a title is offered for choice.
pub open spec fn manga_label_of(manga: Manga) -> Seq<char> {
    "========================================\n  Title: "@ + manga.title@
        + " \n==========================================\n  Author: "@ + manga.author@
        + "\n==========================================\n  Description: "@ + manga.description@
        + "\n"@
}

/// Builds the block of lines under which a title is offered for choice.
pub fn manga_label(manga: &Manga) -> (r: String)
    ensures
        r@ == manga_label_of(*manga),
{
    let mut out = String::from_str("========================================\n  Title: ");
    out.append(manga.title.as_str());
    out.append(" \n==========================================\n  Author: ");
    out.append(manga.author.as_str());
    out.append("\n==========================================\n  Description: ");
    out.append(manga.description.as_str());
    out.append("\n");
    out
}

/// Finds the title that was picked: the first of `mangas` whose label is
/// `selection`.
pub fn chosen_manga(mangas: &Vec<Manga>, selection: &str) -> (r: Option<usize>)
    ensures
        match r {
            Some(index) => {
                &&& index < mangas.len()
                &&& manga_label_of(mangas[index as int]) == selection@
                &&& forall|j: int|
                    0 <= j < index ==> manga_label_of(#[trigger] mangas[j]) != selection@
            },
            None => forall|j: int|
                0 <= j < mangas.len() ==> manga_label_of(#[trigger] mangas[j]) != selection@,
        },
{
    let wanted = String::from_str(selection);
    let mut i: usize = 0;
    while i < mangas.len()
        invariant
            i <= mangas.len(),
            wanted@ == selection@,
            forall|j: int| 0 <= j < i ==> manga_label_of(#[trigger] mangas[j]) != selection@,
        decreases mangas.len() - i,
    {
        if manga_label(&mangas[i]) == wanted {
            return Some(i);
        }
        i = i + 1;
    }
    None
}

} // verus!
