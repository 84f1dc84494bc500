//! PDF objects as plain data, and the calls into `lopdf` and `image` that
//! turn them into a document. What a `lopdf::Document` holds is modelled
//! as a map from object identifiers to nodes.

use lopdf::Object;
use vstd::prelude::*;
use vstd::string::*;

verus! {

/// The identifier of an indirect object.
#[derive(Clone, Copy, Debug, PartialEq, Eq, Structural)]
pub struct ObjectId {
    pub number: u32,
    pub generation: u16,
}

/// An item of an array: an integer or a reference.
#[derive(Clone, Copy, Debug, PartialEq, Eq, Structural)]
pub enum PdfItem {
    Integer(i64),
    Reference(ObjectId),
}

/// A value stored in a dictionary, or an operand of a content operation.
pub enum PdfValue {
    Integer(i64),
    Name(String),
    Reference(ObjectId),
    /// An array; each item says what it is, so that an array without
    /// items is one value.
    Array(Vec<PdfItem>),
    /// A dictionary whose values are references.
    Links(Vec<(String, ObjectId)>),
}

/// The mathematical form of a `PdfValue`.
pub enum PdfValueView {
    Integer(i64),
    Name(Seq<char>),
    Reference(ObjectId),
    Array(Seq<PdfItem>),
    Links(Seq<(Seq<char>, ObjectId)>),
}

impl View for PdfValue {
    type V = PdfValueView;

    open spec fn view(&self) -> PdfValueView {
        match self {
            PdfValue::Integer(i) => PdfValueView::Integer(*i),
            PdfValue::Name(n) => PdfValueView::Name(n@),
            PdfValue::Reference(id) => PdfValueView::Reference(*id),
            PdfValue::Array(v) => PdfValueView::Array(v@),
            PdfValue::Links(v) => PdfValueView::Links(
                Seq::new(v.len() as nat, |i: int| (v[i].0@, v[i].1)),
            ),
        }
    }
}

/// The entries of a dictionary in mathematical form: keys and values in
/// the order in which they were set.
pub type Entries = Seq<(Seq<char>, PdfValueView)>;

/// A dictionary: names and their values, in the order in which they are set.
pub struct PdfDictionary {
    pub entries: Vec<(String, PdfValue)>,
}

impl View for PdfDictionary {
    type V = Entries;

    open spec fn view(&self) -> Entries {
        Seq::new(self.entries.len() as nat, |i: int| (self.entries[i].0@, self.entries[i].1@))
    }
}

/// One operation of a content stream: its operands, then its operator.
pub struct PdfOperation {
    pub operator: String,
    pub operands: Vec<PdfValue>,
}

/// Content operations in mathematical form.
pub type Operations = Seq<(Seq<char>, Seq<PdfValueView>)>;

/// The mathematical form of a list of content operations.
pub open spec fn operations_view(ops: Seq<PdfOperation>) -> Operations {
    Seq::new(
        ops.len(),
        |i: int| (ops[i].operator@, Seq::new(ops[i].operands.len() as nat, |j: int| ops[i].operands[j]@)),
    )
}

/// An indirect object of a document.
pub enum PdfNode {
    Dictionary(Entries),
    /// A stream: its dictionary and its bytes.
    Stream(Entries, Seq<u8>),
}

/// Whether no two entries have the same key, in the dictionary itself and
/// in each dictionary nested in it.
pub open spec fn distinct_keys(entries: Entries) -> bool {
    &&& forall|i: int, j: int| 0 <= i < j < entries.len() ==> entries[i].0 != entries[j].0
    &&& forall|i: int|
        0 <= i < entries.len() ==> match (#[trigger] entries[i]).1 {
            PdfValueView::Links(links) => forall|a: int, b: int|
                0 <= a < b < links.len() ==> links[a].0 != links[b].0,
            _ => true,
        }
}

/// `lopdf::Document`, whose inside only its wrappers speak of.
#[verifier::external_type_specification]
#[verifier::external_body]
pub struct ExDocument(lopdf::Document);

/// `lopdf::Stream`, carried from its maker to the document.
#[verifier::external_type_specification]
#[verifier::external_body]
pub struct ExStream(lopdf::Stream);

/// `lopdf::Object`, which only the converters below make.
#[verifier::external_type_specification]
#[verifier::external_body]
pub struct ExObject(Object);

/// `lopdf::Dictionary`, which only the converters below make.
#[verifier::external_type_specification]
#[verifier::external_body]
pub struct ExDictionary(lopdf::Dictionary);

/// The indirect objects that `doc` holds, by identifier.
pub uninterp spec fn doc_objects(doc: lopdf::Document) -> Map<ObjectId, PdfNode>;

/// The highest object number that `doc` has handed out.
pub uninterp spec fn doc_max_id(doc: lopdf::Document) -> u32;

/// The entries of the trailer of `doc`.
pub uninterp spec fn doc_trailer(doc: lopdf::Document) -> Entries;

/// What `lopdf` writes for `doc`, or `None` where writing fails.
pub uninterp spec fn saved_bytes(doc: lopdf::Document) -> Option<Seq<u8>>;

/// The node that `stream` becomes once it is added to a document.
pub uninterp spec fn stream_node(stream: lopdf::Stream) -> PdfNode;

/// The image stream that `lopdf` builds from the bytes of an image file,
/// or `None` where it cannot read them as an image that it supports.
pub uninterp spec fn embedded_image(bytes: Seq<u8>) -> Option<PdfNode>;

/// The bytes that `lopdf` encodes a list of content operations to.
pub uninterp spec fn encoded_operations(ops: Operations) -> Option<Seq<u8>>;

/// The bytes by which `lopdf` replaces the content of a stream that it
/// deflates, or `None` where it keeps the content: where deflating fails
/// or does not save at least twenty bytes.
pub uninterp spec fn deflated(content: Seq<u8>) -> Option<Seq<u8>>;

/// The pixel width and height that `image` reads from the bytes of an
/// image file, or `None` where it cannot.
pub uninterp spec fn image_size(bytes: Seq<u8>) -> Option<(u32, u32)>;

/// A document's objects before any is stored.
pub open spec fn empty_objects() -> Map<ObjectId, PdfNode> {
    Map::empty()
}

/// The identifier that follows the highest one of `doc`.
pub open spec fn next_id(doc: lopdf::Document) -> ObjectId {
    ObjectId { number: (doc_max_id(doc) + 1) as u32, generation: 0 }
}

/// Rewrites an item of an array as a `lopdf::Object`, variant by variant.
/// Nothing is stated of the result.
#[verifier::external_body]
fn to_item(item: &PdfItem) -> Object {
    match item {
        PdfItem::Integer(i) => Object::Integer(*i),
        PdfItem::Reference(id) => Object::Reference((id.number, id.generation)),
    }
}

/// Rewrites a value as a `lopdf::Object`, variant by variant; different
/// values give different objects. Nothing is stated of the result: the
/// wrappers that pass it on say what the document then holds.
#[verifier::external_body]
fn to_object(value: &PdfValue) -> Object {
    let refer = |id: &ObjectId| Object::Reference((id.number, id.generation));
    match value {
        PdfValue::Integer(i) => Object::Integer(*i),
        PdfValue::Name(n) => Object::from(n.as_str()),
        PdfValue::Reference(id) => refer(id),
        PdfValue::Array(v) => Object::Array(v.iter().map(to_item).collect()),
        PdfValue::Links(v) => Object::Dictionary(
            v.iter().map(|e| (e.0.as_str(), refer(&e.1))).collect(),
        ),
    }
}

/// Rewrites a dictionary as a `lopdf::Dictionary`, entry by entry and in
/// order, through its `FromIterator`. Nothing is stated of the result.
#[verifier::external_body]
fn to_dictionary(dict: &PdfDictionary) -> lopdf::Dictionary {
    lopdf::Dictionary::from_iter(dict.entries.iter().map(|e| (e.0.as_str(), to_object(&e.1))))
}

/// `lopdf::Document::with_version`: a document without objects, whose
/// trailer is empty and which has handed out no identifier yet.
#[verifier::external_body]
pub(crate) fn new_document(version: &str) -> (r: lopdf::Document)
    ensures
        doc_objects(r) == empty_objects(),
        doc_max_id(r) == 0,
        doc_trailer(r).len() == 0,
{
    lopdf::Document::with_version(version)
}

/// `lopdf::Document::new_object_id`: hands out the next identifier and
/// stores nothing under it. It panics once the numbers are used up.
#[verifier::external_body]
pub(crate) fn reserve_id(doc: &mut lopdf::Document) -> (id: ObjectId)
    requires
        doc_max_id(*old(doc)) < u32::MAX,
    ensures
        id == next_id(*old(doc)),
        doc_max_id(*final(doc)) == id.number,
        doc_objects(*final(doc)) == doc_objects(*old(doc)),
        doc_trailer(*final(doc)) == doc_trailer(*old(doc)),
{
    let id = doc.new_object_id();
    ObjectId { number: id.0, generation: id.1 }
}

/// `lopdf::Document::add_object` with a dictionary: stores it under the
/// next identifier. It panics once the numbers are used up.
#[verifier::external_body]
pub(crate) fn add_dictionary(doc: &mut lopdf::Document, dict: &PdfDictionary) -> (id: ObjectId)
    requires
        doc_max_id(*old(doc)) < u32::MAX,
        distinct_keys(dict@),
    ensures
        id == next_id(*old(doc)),
        doc_max_id(*final(doc)) == id.number,
        doc_objects(*final(doc)) == doc_objects(*old(doc)).insert(id, PdfNode::Dictionary(dict@)),
        doc_trailer(*final(doc)) == doc_trailer(*old(doc)),
{
    let id = doc.add_object(to_dictionary(dict));
    ObjectId { number: id.0, generation: id.1 }
}

/// `lopdf::Document::set_object` with a dictionary: stores it under `id`,
/// in place of what was there.
#[verifier::external_body]
pub(crate) fn put_dictionary(doc: &mut lopdf::Document, id: ObjectId, dict: &PdfDictionary)
    requires
        distinct_keys(dict@),
    ensures
        doc_max_id(*final(doc)) == doc_max_id(*old(doc)),
        doc_objects(*final(doc)) == doc_objects(*old(doc)).insert(id, PdfNode::Dictionary(dict@)),
        doc_trailer(*final(doc)) == doc_trailer(*old(doc)),
{
    doc.set_object((id.number, id.generation), to_dictionary(dict));
}

/// `lopdf::Document::add_object` with a stream: stores it under the next
/// identifier. It panics once the numbers are used up.
#[verifier::external_body]
pub(crate) fn add_stream(doc: &mut lopdf::Document, stream: lopdf::Stream) -> (id: ObjectId)
    requires
        doc_max_id(*old(doc)) < u32::MAX,
    ensures
        id == next_id(*old(doc)),
        doc_max_id(*final(doc)) == id.number,
        doc_objects(*final(doc)) == doc_objects(*old(doc)).insert(id, stream_node(stream)),
        doc_objects(*final(doc))[id] is Stream,
        doc_trailer(*final(doc)) == doc_trailer(*old(doc)),
{
    let id = doc.add_object(stream);
    ObjectId { number: id.0, generation: id.1 }
}

/// `lopdf::Stream::new` with an empty dictionary: a stream of `content`
/// whose dictionary holds its length and nothing else.
#[verifier::external_body]
pub(crate) fn new_stream(content: Vec<u8>) -> (stream: lopdf::Stream)
    ensures
        stream_node(stream) == PdfNode::Stream(
            seq![("Length"@, PdfValueView::Integer(content.len() as i64))],
            content@,
        ),
{
    lopdf::Stream::new(lopdf::Dictionary::new(), content)
}

/// `lopdf::xobject::image_from`: builds the image stream for the bytes of
/// an image file. The result is a function of the bytes alone, as long as
/// the process registers no format hook of its own with `image`.
#[verifier::external_body]
pub(crate) fn image_stream(bytes: Vec<u8>) -> (r: Option<lopdf::Stream>)
    ensures
        match r {
            Some(stream) => embedded_image(bytes@) == Some(stream_node(stream)),
            None => embedded_image(bytes@) is None,
        },
{
    lopdf::xobject::image_from(bytes).ok()
}

/// `lopdf::content::Content::encode`: the bytes of a content stream that
/// holds `ops`. The result is a function of the operations alone.
#[verifier::external_body]
pub(crate) fn encode_operations(ops: &Vec<PdfOperation>) -> (r: Option<Vec<u8>>)
    ensures
        match r {
            Some(bytes) => encoded_operations(operations_view(ops@)) == Some(bytes@),
            None => encoded_operations(operations_view(ops@)) is None,
        },
{
    let convert = |op: &PdfOperation|
        lopdf::content::Operation::new(&op.operator, op.operands.iter().map(to_object).collect());
    let operations: Vec<lopdf::content::Operation> = ops.iter().map(convert).collect();
    lopdf::content::Content { operations }.encode().ok()
}

/// Whether `entries` has an entry with key `key`.
pub open spec fn has_key(entries: Entries, key: Seq<char>) -> bool {
    exists|i: int| 0 <= i < entries.len() && (#[trigger] entries[i]).0 == key
}

/// `lopdf::Dictionary::set` on the trailer of a document: adds an entry
/// that refers to `id` under a key that the trailer does not have yet.
#[verifier::external_body]
pub(crate) fn set_trailer(doc: &mut lopdf::Document, key: &str, id: ObjectId)
    requires
        !has_key(doc_trailer(*old(doc)), key@),
    ensures
        doc_trailer(*final(doc)) == doc_trailer(*old(doc)).push(
            (key@, PdfValueView::Reference(id)),
        ),
        doc_max_id(*final(doc)) == doc_max_id(*old(doc)),
        doc_objects(*final(doc)) == doc_objects(*old(doc)),
{
    doc.trailer.set(key, (id.number, id.generation));
}

/// `entries` after `key` was set to `value`: the entry with this key
/// holds the value in its place, or a new entry stands at the end.
pub open spec fn with_entry(entries: Entries, key: Seq<char>, value: PdfValueView) -> Entries {
    if has_key(entries, key) {
        entries.update(
            choose|i: int| 0 <= i < entries.len() && (#[trigger] entries[i]).0 == key,
            (key, value),
        )
    } else {
        entries.push((key, value))
    }
}

/// The bytes of a stream; a dictionary has none.
pub open spec fn bytes_of(node: PdfNode) -> Seq<u8> {
    match node {
        PdfNode::Dictionary(_) => Seq::empty(),
        PdfNode::Stream(_, content) => content,
    }
}

/// What a node is after its bytes were replaced by the deflated bytes
/// `squeezed`; `None` for a node that is left as it is. Only a stream
/// without a filter is deflated: its dictionary then names the filter and
/// the new length, and its bytes are the deflated ones.
pub open spec fn deflated_node(node: PdfNode, squeezed: Option<Seq<u8>>) -> Option<PdfNode> {
    match node {
        PdfNode::Dictionary(_) => None,
        PdfNode::Stream(dict, content) => if has_key(dict, "Filter"@) {
            None
        } else {
            match squeezed {
                Some(bytes) => Some(
                    PdfNode::Stream(
                        with_entry(
                            with_entry(dict, "Filter"@, PdfValueView::Name("FlateDecode"@)),
                            "Length"@,
                            PdfValueView::Integer(bytes.len() as i64),
                        ),
                        bytes,
                    ),
                ),
                None => None,
            }
        },
    }
}

/// Whether `after` is what a document holds in place of `before` once its
/// streams were deflated: the node as it was, or its deflated form.
pub open spec fn settled(before: PdfNode, after: PdfNode) -> bool {
    after == before || deflated_node(before, deflated(bytes_of(before))) == Some(after)
}

/// `lopdf::Document::compress`: deflates the streams that allow it, have
/// no filter yet and get at least twenty bytes shorter by it. Every
/// object stays under its identifier, as it was or in its deflated form;
/// nothing else changes.
#[verifier::external_body]
pub(crate) fn compress_streams(doc: &mut lopdf::Document)
    ensures
        doc_max_id(*final(doc)) == doc_max_id(*old(doc)),
        doc_trailer(*final(doc)) == doc_trailer(*old(doc)),
        doc_objects(*final(doc)).dom() == doc_objects(*old(doc)).dom(),
        forall|id: ObjectId| #[trigger]
            doc_objects(*old(doc)).dom().contains(id) ==> doc_objects(*final(doc))[id]
                == doc_objects(*old(doc))[id] || deflated_node(
                doc_objects(*old(doc))[id],
                deflated(bytes_of(doc_objects(*old(doc))[id])),
            ) == Some(doc_objects(*final(doc))[id]),
{
    doc.compress();
}

/// `lopdf::Document::save_to` into a vector of bytes: the whole file. The
/// result is a function of the document alone.
#[verifier::external_body]
pub(crate) fn save_document(doc: lopdf::Document) -> (r: Option<Vec<u8>>)
    ensures
        match r {
            Some(bytes) => saved_bytes(doc) == Some(bytes@),
            None => saved_bytes(doc) is None,
        },
{
    let mut doc = doc;
    let mut out: Vec<u8> = Vec::new();
    match doc.save_to(&mut out) {
        Ok(()) => Some(out),
        Err(_) => None,
    }
}

/// `image::ImageReader` on bytes in memory, with the format guessed from
/// the bytes: reads the pixel width and height without decoding the
/// pixels. The result is a function of the bytes alone, as long as the
/// process registers no format hook of its own with `image`.
#[verifier::external_body]
pub(crate) fn probe_size(bytes: &[u8]) -> (r: Option<(u32, u32)>)
    ensures
        r == image_size(bytes@),
{
    let reader = image::ImageReader::new(std::io::Cursor::new(bytes));
    reader.with_guessed_format().ok()?.into_dimensions().ok()
}

} // verus!
