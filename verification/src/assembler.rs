//! Assembly of one document out of page images, strictly in the order in
//! which the pages are handed in. Every page becomes four objects: the
//! image, a content stream that paints it, its resources and the page.

use crate::pdf::{
    add_dictionary, add_stream, compress_streams, distinct_keys, doc_max_id, doc_objects,
    doc_trailer, embedded_image, encode_operations, encoded_operations, image_size, image_stream,
    new_document, new_stream, operations_view, probe_size, put_dictionary, reserve_id,
    save_document, saved_bytes, set_trailer, settled, stream_node, Entries, ObjectId, Operations,
    PdfDictionary, PdfItem, PdfNode, PdfOperation, PdfValue, PdfValueView,
};
use vstd::prelude::*;
use vstd::string::*;

verus! {

/// The most pages that one document takes: each page takes four object
/// numbers, and the numbers end at `u32::MAX`.
pub const MAX_PAGES: usize = 1_073_741_823;

/// One page of the document, with the identifiers of its objects.
#[derive(Clone, Copy, Debug, PartialEq, Eq, Structural)]
pub struct PdfPage {
    pub media_width: u32,
    pub media_height: u32,
    pub image_object_id: ObjectId,
    pub content_stream_id: ObjectId,
    pub resources_id: ObjectId,
    pub page_id: ObjectId,
}

/// Why assembly stopped.
#[derive(Clone, Copy, Debug, PartialEq, Eq, Structural)]
pub enum AssemblyError {
    /// The bytes are no image whose size and pixels can be read.
    ImageDecode,
    /// The content stream of the page could not be encoded.
    ContentEncode,
    /// The document already holds `MAX_PAGES` pages.
    PageLimit,
    /// No page was embedded: a document without pages is never produced.
    EmptyChapter,
    /// The finished document could not be written out.
    Write,
}

/// The identifier with object number `number` and generation zero.
pub open spec fn object_id(number: int) -> ObjectId {
    ObjectId { number: number as u32, generation: 0 }
}

/// The identifier of the page tree: the first one of every document.
pub open spec fn page_tree_id() -> ObjectId {
    object_id(1)
}

/// The page at position `index` of a document, for an image of the given
/// size: its four objects follow those of the page before it.
pub open spec fn page_at(index: int, width: u32, height: u32) -> PdfPage {
    PdfPage {
        media_width: width,
        media_height: height,
        image_object_id: object_id(4 * index + 2),
        content_stream_id: object_id(4 * index + 3),
        resources_id: object_id(4 * index + 4),
        page_id: object_id(4 * index + 5),
    }
}

/// The content of a page: the image `Img1`, scaled to `width` by `height`
/// units, one unit for each pixel.
pub open spec fn paint_operations(width: u32, height: u32) -> Operations {
    seq![
        ("q"@, Seq::<PdfValueView>::empty()),
        (
            "cm"@,
            seq![
                PdfValueView::Integer(width as i64),
                PdfValueView::Integer(0),
                PdfValueView::Integer(0),
                PdfValueView::Integer(height as i64),
                PdfValueView::Integer(0),
                PdfValueView::Integer(0),
            ],
        ),
        ("Do"@, seq![PdfValueView::Name("Img1"@)]),
        ("Q"@, Seq::<PdfValueView>::empty()),
    ]
}

/// The stream that holds the encoded content of a page.
pub open spec fn content_node(width: u32, height: u32) -> PdfNode {
    let bytes = encoded_operations(paint_operations(width, height))->0;
    PdfNode::Stream(seq![("Length"@, PdfValueView::Integer(bytes.len() as i64))], bytes)
}

/// The resources of a page: its image under the name `Img1`.
pub open spec fn resources_entries(image: ObjectId) -> Entries {
    seq![("XObject"@, PdfValueView::Links(seq![("Img1"@, image)]))]
}

/// The boundary of a page of `width` by `height` units: the rectangle
/// from the origin to this size.
pub open spec fn media_box_of(width: u32, height: u32) -> Seq<PdfItem> {
    seq![
        PdfItem::Integer(0),
        PdfItem::Integer(0),
        PdfItem::Integer(width as i64),
        PdfItem::Integer(height as i64),
    ]
}

/// References to `kids`, in order.
pub open spec fn references_to(kids: Seq<ObjectId>) -> Seq<PdfItem> {
    Seq::new(kids.len(), |k: int| PdfItem::Reference(kids[k]))
}

/// A page object: its boundary is the rectangle from the origin to
/// `width` by `height`.
pub open spec fn page_entries(
    parent: ObjectId,
    width: u32,
    height: u32,
    contents: ObjectId,
    resources: ObjectId,
) -> Entries {
    seq![
        ("Type"@, PdfValueView::Name("Page"@)),
        ("Parent"@, PdfValueView::Reference(parent)),
        ("MediaBox"@, PdfValueView::Array(media_box_of(width, height))),
        ("Contents"@, PdfValueView::Reference(contents)),
        ("Resources"@, PdfValueView::Reference(resources)),
    ]
}

/// The page tree: its pages in order, and their number.
pub open spec fn page_tree_entries(kids: Seq<ObjectId>) -> Entries {
    seq![
        ("Type"@, PdfValueView::Name("Pages"@)),
        ("Kids"@, PdfValueView::Array(references_to(kids))),
        ("Count"@, PdfValueView::Integer(kids.len() as i64)),
    ]
}

/// The catalog: it refers to the page tree.
pub open spec fn catalog_entries(pages: ObjectId) -> Entries {
    seq![("Type"@, PdfValueView::Name("Catalog"@)), ("Pages"@, PdfValueView::Reference(pages))]
}

/// The page objects of `pages`, in order.
pub open spec fn kids_of(pages: Seq<PdfPage>) -> Seq<ObjectId> {
    Seq::new(pages.len(), |k: int| pages[k].page_id)
}

fn entry(key: &str, value: PdfValue) -> (r: (String, PdfValue))
    ensures
        r.0@ == key@,
        r.1 == value,
{
    (String::from_str(key), value)
}

fn name(text: &str) -> (r: PdfValue)
    ensures
        r@ == PdfValueView::Name(text@),
{
    PdfValue::Name(String::from_str(text))
}

fn paint_content(width: u32, height: u32) -> (r: Vec<PdfOperation>)
    ensures
        operations_view(r@) == paint_operations(width, height),
{
    let mut matrix: Vec<PdfValue> = Vec::new();
    matrix.push(PdfValue::Integer(width as i64));
    matrix.push(PdfValue::Integer(0));
    matrix.push(PdfValue::Integer(0));
    matrix.push(PdfValue::Integer(height as i64));
    matrix.push(PdfValue::Integer(0));
    matrix.push(PdfValue::Integer(0));
    let mut image: Vec<PdfValue> = Vec::new();
    image.push(name("Img1"));
    let mut ops: Vec<PdfOperation> = Vec::new();
    ops.push(PdfOperation { operator: String::from_str("q"), operands: Vec::new() });
    ops.push(PdfOperation { operator: String::from_str("cm"), operands: matrix });
    ops.push(PdfOperation { operator: String::from_str("Do"), operands: image });
    ops.push(PdfOperation { operator: String::from_str("Q"), operands: Vec::new() });
    proof {
        let got = operations_view(ops@);
        let want = paint_operations(width, height);
        assert(got.len() == want.len());
        assert(got[0].1 =~= want[0].1);
        assert(got[1].1 =~= want[1].1);
        assert(got[2].1 =~= want[2].1);
        assert(got[3].1 =~= want[3].1);
        assert(got =~= want);
    }
    ops
}

fn resources_dictionary(image: ObjectId) -> (r: PdfDictionary)
    ensures
        r@ == resources_entries(image),
        distinct_keys(r@),
{
    let mut links: Vec<(String, ObjectId)> = Vec::new();
    links.push((String::from_str("Img1"), image));
    let value = PdfValue::Links(links);
    assert(value@ == PdfValueView::Links(seq![("Img1"@, image)])) by {
        assert(value@->Links_0 =~= seq![("Img1"@, image)]);
    }
    let mut entries: Vec<(String, PdfValue)> = Vec::new();
    entries.push(entry("XObject", value));
    let r = PdfDictionary { entries };
    assert(r@ =~= resources_entries(image));
    r
}

fn page_dictionary(
    parent: ObjectId,
    width: u32,
    height: u32,
    contents: ObjectId,
    resources: ObjectId,
) -> (r: PdfDictionary)
    ensures
        r@ == page_entries(parent, width, height, contents, resources),
        distinct_keys(r@),
{
    let mut media_box: Vec<PdfItem> = Vec::new();
    media_box.push(PdfItem::Integer(0));
    media_box.push(PdfItem::Integer(0));
    media_box.push(PdfItem::Integer(width as i64));
    media_box.push(PdfItem::Integer(height as i64));
    assert(media_box@ =~= media_box_of(width, height));
    let mut entries: Vec<(String, PdfValue)> = Vec::new();
    entries.push(entry("Type", name("Page")));
    entries.push(entry("Parent", PdfValue::Reference(parent)));
    entries.push(entry("MediaBox", PdfValue::Array(media_box)));
    entries.push(entry("Contents", PdfValue::Reference(contents)));
    entries.push(entry("Resources", PdfValue::Reference(resources)));
    let r = PdfDictionary { entries };
    proof {
        reveal_strlit("Type");
        reveal_strlit("Parent");
        reveal_strlit("MediaBox");
        reveal_strlit("Contents");
        reveal_strlit("Resources");
        assert(r@ =~= page_entries(parent, width, height, contents, resources));
        assert("Type"@.len() == 4 && "Parent"@.len() == 6 && "MediaBox"@.len() == 8);
        assert("Contents"@.len() == 8 && "Resources"@.len() == 9);
        assert("MediaBox"@[0] != "Contents"@[0]);
    }
    r
}

fn page_tree_dictionary(kids: Vec<ObjectId>) -> (r: PdfDictionary)
    requires
        kids.len() <= MAX_PAGES,
    ensures
        r@ == page_tree_entries(kids@),
        distinct_keys(r@),
{
    let count = kids.len() as i64;
    let mut items: Vec<PdfItem> = Vec::new();
    let mut i: usize = 0;
    while i < kids.len()
        invariant
            i <= kids.len(),
            items@ == references_to(kids@.take(i as int)),
        decreases kids.len() - i,
    {
        items.push(PdfItem::Reference(kids[i]));
        i = i + 1;
        assert(items@ =~= references_to(kids@.take(i as int)));
    }
    assert(kids@.take(kids.len() as int) =~= kids@);
    let mut entries: Vec<(String, PdfValue)> = Vec::new();
    entries.push(entry("Type", name("Pages")));
    entries.push(entry("Kids", PdfValue::Array(items)));
    entries.push(entry("Count", PdfValue::Integer(count)));
    let r = PdfDictionary { entries };
    proof {
        reveal_strlit("Type");
        reveal_strlit("Kids");
        reveal_strlit("Count");
        assert(r@ =~= page_tree_entries(kids@));
        assert("Type"@[0] != "Kids"@[0]);
    }
    r
}

fn catalog_dictionary(pages: ObjectId) -> (r: PdfDictionary)
    ensures
        r@ == catalog_entries(pages),
        distinct_keys(r@),
{
    let mut entries: Vec<(String, PdfValue)> = Vec::new();
    entries.push(entry("Type", name("Catalog")));
    entries.push(entry("Pages", PdfValue::Reference(pages)));
    let r = PdfDictionary { entries };
    proof {
        reveal_strlit("Type");
        reveal_strlit("Pages");
        assert(r@ =~= catalog_entries(pages));
        assert("Type"@.len() == 4 && "Pages"@.len() == 5);
    }
    r
}

/// Why a page with these bytes is not embedded into a document that
/// holds `page_count` pages; `None` where it is embedded.
pub open spec fn embed_defect(page_count: nat, bytes: Seq<u8>) -> Option<AssemblyError> {
    if page_count >= MAX_PAGES {
        Some(AssemblyError::PageLimit)
    } else if image_size(bytes) is None || embedded_image(bytes) is None {
        Some(AssemblyError::ImageDecode)
    } else {
        let size = image_size(bytes)->Some_0;
        if encoded_operations(paint_operations(size.0, size.1)) is None {
            Some(AssemblyError::ContentEncode)
        } else {
            None
        }
    }
}

/// The objects of a document after the page `page` was added to it, with
/// `image` as the node of its image.
pub open spec fn with_page(objects: Map<ObjectId, PdfNode>, page: PdfPage, image: PdfNode) -> Map<
    ObjectId,
    PdfNode,
> {
    objects.insert(page.image_object_id, image).insert(
        page.content_stream_id,
        content_node(page.media_width, page.media_height),
    ).insert(page.resources_id, PdfNode::Dictionary(resources_entries(page.image_object_id))).insert(
        page.page_id,
        PdfNode::Dictionary(
            page_entries(
                page_tree_id(),
                page.media_width,
                page.media_height,
                page.content_stream_id,
                page.resources_id,
            ),
        ),
    )
}

/// A document that is being built, page by page. It is owned by the one
/// assembler of its chapter.
pub struct PdfAssembler {
    doc: lopdf::Document,
    pages: Vec<PdfPage>,
}

impl PdfAssembler {
    /// The pages embedded so far, in the order in which they were handed in.
    pub closed spec fn pages(&self) -> Seq<PdfPage> {
        self.pages@
    }

    /// The objects of the document so far.
    pub closed spec fn objects(&self) -> Map<ObjectId, PdfNode> {
        doc_objects(self.doc)
    }

    /// The highest object number handed out so far.
    pub closed spec fn max_id(&self) -> int {
        doc_max_id(self.doc) as int
    }

    /// The trailer of the document so far.
    pub closed spec fn trailer(&self) -> Entries {
        doc_trailer(self.doc)
    }

    /// Whether the objects of page `k` are in the document as the page
    /// records them.
    pub open spec fn page_committed(&self, k: int) -> bool {
        let page = self.pages()[k];
        &&& page == page_at(k, page.media_width, page.media_height)
        &&& self.objects()[page.image_object_id] is Stream
        &&& encoded_operations(paint_operations(page.media_width, page.media_height)) is Some
        &&& self.objects()[page.content_stream_id] == content_node(
            page.media_width,
            page.media_height,
        )
        &&& self.objects()[page.resources_id] == PdfNode::Dictionary(
            resources_entries(page.image_object_id),
        )
        &&& self.objects()[page.page_id] == PdfNode::Dictionary(
            page_entries(
                page_tree_id(),
                page.media_width,
                page.media_height,
                page.content_stream_id,
                page.resources_id,
            ),
        )
    }

    /// The invariant of a document that is being built: the identifier of
    /// the page tree is set aside, and the document holds the four objects
    /// of every page and nothing else.
    pub open spec fn wf(&self) -> bool {
        &&& self.pages().len() <= MAX_PAGES
        &&& self.max_id() == 4 * self.pages().len() + 1
        &&& self.trailer().len() == 0
        &&& forall|id: ObjectId|
            self.objects().dom().contains(id) <==> (id.generation == 0 && 2 <= id.number <= 4
                * self.pages().len() + 1)
        &&& forall|k: int| 0 <= k < self.pages().len() ==> #[trigger] self.page_committed(k)
    }

    /// A document without pages.
    pub fn new() -> (r: PdfAssembler)
        ensures
            r.wf(),
            r.pages().len() == 0,
    {
        let mut doc = new_document("1.5");
        let _ = reserve_id(&mut doc);
        PdfAssembler { doc, pages: Vec::new() }
    }

    /// The number of pages embedded so far.
    pub fn page_count(&self) -> (r: usize)
        ensures
            r == self.pages().len(),
    {
        self.pages.len()
    }

    /// Adds a page for an image that has been read already: `image` is its
    /// stream, `width` and `height` its size in pixels. The page gets the
    /// size of the image as its boundary, and content that paints the
    /// image over all of it. A document that is full, or content that
    /// cannot be encoded, leaves the document as it was.
    pub fn commit_page(&mut self, image: lopdf::Stream, width: u32, height: u32) -> (r: Result<
        PdfPage,
        AssemblyError,
    >)
        requires
            old(self).wf(),
        ensures
            final(self).wf(),
            match r {
                Ok(page) => {
                    &&& old(self).pages().len() < MAX_PAGES
                    &&& encoded_operations(paint_operations(width, height)) is Some
                    &&& page == page_at(old(self).pages().len() as int, width, height)
                    &&& final(self).pages() == old(self).pages().push(page)
                    &&& final(self).objects() == with_page(
                        old(self).objects(),
                        page,
                        stream_node(image),
                    )
                },
                Err(e) => {
                    &&& final(self).pages() == old(self).pages()
                    &&& final(self).objects() == old(self).objects()
                    &&& if old(self).pages().len() >= MAX_PAGES {
                        e == AssemblyError::PageLimit
                    } else {
                        e == AssemblyError::ContentEncode && encoded_operations(
                            paint_operations(width, height),
                        ) is None
                    }
                },
            },
    {
        if self.pages.len() >= MAX_PAGES {
            return Err(AssemblyError::PageLimit);
        }
        let ops = paint_content(width, height);
        let content = match encode_operations(&ops) {
            Some(bytes) => bytes,
            None => {
                return Err(AssemblyError::ContentEncode);
            },
        };
        let ghost before = *self;
        let ghost index = self.pages@.len() as int;
        let image_id = add_stream(&mut self.doc, image);
        let content_id = add_stream(&mut self.doc, new_stream(content));
        let resources = resources_dictionary(image_id);
        let resources_id = add_dictionary(&mut self.doc, &resources);
        let tree = ObjectId { number: 1, generation: 0 };
        let page_dict = page_dictionary(tree, width, height, content_id, resources_id);
        let page_id = add_dictionary(&mut self.doc, &page_dict);
        let page = PdfPage {
            media_width: width,
            media_height: height,
            image_object_id: image_id,
            content_stream_id: content_id,
            resources_id,
            page_id,
        };
        self.pages.push(page);
        proof {
            assert(page == page_at(index, width, height));
            assert(self.objects() == with_page(before.objects(), page, stream_node(image)));
            assert forall|k: int| 0 <= k < self.pages().len() implies #[trigger] self.page_committed(
                k,
            ) by {
                if k < index {
                    assert(before.page_committed(k));
                    assert(self.pages()[k] == before.pages()[k]);
                }
            }
        }
        Ok(page)
    }

    /// Embeds the image file `bytes` as the next page of the document. The
    /// page gets the pixel size of the image as its boundary. Bytes that
    /// are no readable image leave the document as it was.
    pub fn embed(&mut self, bytes: Vec<u8>) -> (r: Result<PdfPage, AssemblyError>)
        requires
            old(self).wf(),
        ensures
            final(self).wf(),
            match r {
                Ok(page) => {
                    &&& embed_defect(old(self).pages().len(), bytes@) is None
                    &&& image_size(bytes@) == Some((page.media_width, page.media_height))
                    &&& page == page_at(
                        old(self).pages().len() as int,
                        page.media_width,
                        page.media_height,
                    )
                    &&& final(self).pages() == old(self).pages().push(page)
                    &&& final(self).objects() == with_page(
                        old(self).objects(),
                        page,
                        embedded_image(bytes@)->0,
                    )
                },
                Err(e) => {
                    &&& embed_defect(old(self).pages().len(), bytes@) == Some(e)
                    &&& final(self).pages() == old(self).pages()
                    &&& final(self).objects() == old(self).objects()
                },
            },
    {
        if self.pages.len() >= MAX_PAGES {
            return Err(AssemblyError::PageLimit);
        }
        let size = match probe_size(bytes.as_slice()) {
            Some(size) => size,
            None => {
                return Err(AssemblyError::ImageDecode);
            },
        };
        let image = match image_stream(bytes) {
            Some(image) => image,
            None => {
                return Err(AssemblyError::ImageDecode);
            },
        };
        self.commit_page(image, size.0, size.1)
    }

    /// Closes the document: the page tree lists the pages in the order in
    /// which they were embedded and counts them, the catalog refers to the
    /// page tree and is the root of the document, and the streams are
    /// deflated. A document without pages is refused.
    pub fn finish(self) -> (r: Result<PdfDocument, AssemblyError>)
        requires
            self.wf(),
        ensures
            match r {
                Ok(document) => {
                    &&& self.pages().len() > 0
                    &&& document.wf()
                    &&& document.pages() == self.pages()
                },
                Err(e) => e == AssemblyError::EmptyChapter && self.pages().len() == 0,
            },
    {
        let ghost before = self;
        let PdfAssembler { doc, pages } = self;
        let mut doc = doc;
        if pages.len() == 0 {
            return Err(AssemblyError::EmptyChapter);
        }
        let mut kids: Vec<ObjectId> = Vec::new();
        let mut i: usize = 0;
        while i < pages.len()
            invariant
                i <= pages.len(),
                kids@ == kids_of(pages@.take(i as int)),
            decreases pages.len() - i,
        {
            kids.push(pages[i].page_id);
            i = i + 1;
            assert(kids@ =~= kids_of(pages@.take(i as int)));
        }
        assert(pages@.take(pages.len() as int) =~= pages@);
        let tree_id = ObjectId { number: 1, generation: 0 };
        let tree = page_tree_dictionary(kids);
        put_dictionary(&mut doc, tree_id, &tree);
        let catalog = catalog_dictionary(tree_id);
        let catalog_id = add_dictionary(&mut doc, &catalog);
        assert(!crate::pdf::has_key(doc_trailer(doc), "Root"@));
        set_trailer(&mut doc, "Root", catalog_id);
        let ghost plain = doc_objects(doc);
        compress_streams(&mut doc);
        let document = PdfDocument { doc, pages };
        proof {
            assert(document.trailer() =~= seq![("Root"@, PdfValueView::Reference(catalog_id))]);
            assert forall|id: ObjectId| document.objects().dom().contains(id) <==> (id.generation
                == 0 && 1 <= id.number <= 4 * document.pages().len() + 2) by {
                assert(plain.dom().contains(id) <==> (before.objects().dom().contains(id) || id
                    == tree_id || id == catalog_id));
            }
            assert forall|k: int| 0 <= k < document.pages().len() implies #[trigger] document.page_placed(
                k,
            ) by {
                assert(before.page_committed(k));
                let page = before.pages()[k];
                assert(plain.dom().contains(page.image_object_id));
                assert(plain.dom().contains(page.content_stream_id));
                assert(plain.dom().contains(page.resources_id));
                assert(plain.dom().contains(page.page_id));
            }
            assert(plain.dom().contains(tree_id));
            assert(plain.dom().contains(catalog_id));
        }
        Ok(document)
    }
}

/// A finished document: pages, page tree, catalog and root are in place.
pub struct PdfDocument {
    doc: lopdf::Document,
    pages: Vec<PdfPage>,
}

impl PdfDocument {
    /// The pages of the document, in order.
    pub closed spec fn pages(&self) -> Seq<PdfPage> {
        self.pages@
    }

    /// The objects of the document.
    pub closed spec fn objects(&self) -> Map<ObjectId, PdfNode> {
        doc_objects(self.doc)
    }

    /// The highest object number of the document.
    pub closed spec fn max_id(&self) -> int {
        doc_max_id(self.doc) as int
    }

    /// The trailer of the document.
    pub closed spec fn trailer(&self) -> Entries {
        doc_trailer(self.doc)
    }

    /// The bytes of the file that the document is written to, or `None`
    /// where it cannot be written.
    pub closed spec fn saved(&self) -> Option<Seq<u8>> {
        saved_bytes(self.doc)
    }

    /// The identifier of the catalog: the last one of the document.
    pub open spec fn catalog_id(&self) -> ObjectId {
        object_id(4 * (self.pages().len() as int) + 2)
    }

    /// Whether page `k` is in the document as the page records it: the
    /// image is a stream, the content is the stream that paints the image
    /// over the page, as it was encoded or deflated, and the resources and
    /// the page object are exactly those of a page of its size.
    pub open spec fn page_placed(&self, k: int) -> bool {
        let page = self.pages()[k];
        &&& page == page_at(k, page.media_width, page.media_height)
        &&& self.objects()[page.image_object_id] is Stream
        &&& encoded_operations(paint_operations(page.media_width, page.media_height)) is Some
        &&& settled(
            content_node(page.media_width, page.media_height),
            self.objects()[page.content_stream_id],
        )
        &&& self.objects()[page.resources_id] == PdfNode::Dictionary(
            resources_entries(page.image_object_id),
        )
        &&& self.objects()[page.page_id] == PdfNode::Dictionary(
            page_entries(
                page_tree_id(),
                page.media_width,
                page.media_height,
                page.content_stream_id,
                page.resources_id,
            ),
        )
    }

    /// The invariant of a finished document: it has a page, every page is
    /// in place, the page tree lists the page objects in page order with
    /// their count, the catalog refers to the page tree, the trailer names
    /// the catalog as the root, and the document holds nothing else.
    pub open spec fn wf(&self) -> bool {
        &&& 1 <= self.pages().len() <= MAX_PAGES
        &&& self.max_id() == 4 * self.pages().len() + 2
        &&& self.trailer() == seq![("Root"@, PdfValueView::Reference(self.catalog_id()))]
        &&& forall|id: ObjectId|
            self.objects().dom().contains(id) <==> (id.generation == 0 && 1 <= id.number <= 4
                * self.pages().len() + 2)
        &&& self.objects()[page_tree_id()] == PdfNode::Dictionary(
            page_tree_entries(kids_of(self.pages())),
        )
        &&& self.objects()[self.catalog_id()] == PdfNode::Dictionary(
            catalog_entries(page_tree_id()),
        )
        &&& forall|k: int| 0 <= k < self.pages().len() ==> #[trigger] self.page_placed(k)
    }

    /// The number of pages.
    pub fn page_count(&self) -> (r: usize)
        ensures
            r == self.pages().len(),
    {
        self.pages.len()
    }

    /// The page at position `index`; `None` past the last page.
    pub fn page(&self, index: usize) -> (r: Option<PdfPage>)
        ensures
            r == if index < self.pages().len() {
                Some(self.pages()[index as int])
            } else {
                None
            },
    {
        if index < self.pages.len() {
            Some(self.pages[index])
        } else {
            None
        }
    }

    /// Writes the document out as the bytes of one file.
    pub fn to_bytes(self) -> (r: Result<Vec<u8>, AssemblyError>)
        ensures
            match r {
                Ok(bytes) => self.saved() == Some(bytes@),
                Err(e) => e == AssemblyError::Write && self.saved() is None,
            },
    {
        match save_document(self.doc) {
            Some(bytes) => Ok(bytes),
            None => Err(AssemblyError::Write),
        }
    }

    /// Geometry: the boundary of every page of a finished document is the
    /// rectangle from the origin to the width and height of the page,
    /// which `embed` took from the pixel size of the image, and its content
    /// is the stream that paints the image over this rectangle, as it was
    /// encoded or in its deflated form.
    pub proof fn lemma_page_boundary(&self, k: int)
        requires
            self.wf(),
            0 <= k < self.pages().len(),
        ensures
            self.objects().dom().contains(self.pages()[k].page_id),
            self.objects()[self.pages()[k].page_id] matches PdfNode::Dictionary(entries)
                && entries[2] == ("MediaBox"@, PdfValueView::Array(
                seq![
                    PdfItem::Integer(0),
                    PdfItem::Integer(0),
                    PdfItem::Integer(self.pages()[k].media_width as i64),
                    PdfItem::Integer(self.pages()[k].media_height as i64),
                ],
            )),
            settled(
                content_node(self.pages()[k].media_width, self.pages()[k].media_height),
                self.objects()[self.pages()[k].content_stream_id],
            ),
    {
        assert(self.page_placed(k));
    }

    /// Page order: the page tree of a finished document lists exactly one
    /// page object for each page, in page order, and counts them.
    pub proof fn lemma_page_tree_lists_pages(&self)
        requires
            self.wf(),
        ensures
            self.objects()[page_tree_id()] matches PdfNode::Dictionary(entries) && entries[1] == (
                "Kids"@,
                PdfValueView::Array(references_to(kids_of(self.pages()))),
            ) && entries[2] == ("Count"@, PdfValueView::Integer(self.pages().len() as i64)),
            kids_of(self.pages()).len() == self.pages().len(),
            forall|k: int|
                0 <= k < self.pages().len() ==> kids_of(self.pages())[k] == object_id(4 * k + 5),
    {
        assert forall|k: int| 0 <= k < self.pages().len() implies kids_of(self.pages())[k]
            == object_id(4 * k + 5) by {
            assert(self.page_placed(k));
        }
    }
}

} // verus!
