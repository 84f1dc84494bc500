use manga_pdf::assembler::{AssemblyError, PdfAssembler, PdfPage};
use manga_pdf::pdf::ObjectId;

fn png(width: u32, height: u32) -> Vec<u8> {
    let picture = image::RgbImage::new(width, height);
    let mut out = std::io::Cursor::new(Vec::new());
    picture.write_to(&mut out, image::ImageFormat::Png).unwrap();
    out.into_inner()
}

fn jpeg(width: u32, height: u32) -> Vec<u8> {
    let picture = image::RgbImage::new(width, height);
    let mut out = std::io::Cursor::new(Vec::new());
    picture.write_to(&mut out, image::ImageFormat::Jpeg).unwrap();
    out.into_inner()
}

fn id(number: u32) -> ObjectId {
    ObjectId { number, generation: 0 }
}

fn media_box(document: &lopdf::Document, page: lopdf::ObjectId) -> Vec<i64> {
    let page = document.get_dictionary(page).unwrap();
    page.get(b"MediaBox")
        .unwrap()
        .as_array()
        .unwrap()
        .iter()
        .map(|value| value.as_i64().unwrap())
        .collect()
}

#[test]
fn embed_records_size_and_object_ids() {
    let mut assembler = PdfAssembler::new();
    let first = assembler.embed(png(7, 5)).unwrap();
    assert_eq!(
        first,
        PdfPage {
            media_width: 7,
            media_height: 5,
            image_object_id: id(2),
            content_stream_id: id(3),
            resources_id: id(4),
            page_id: id(5),
        }
    );
    let second = assembler.embed(jpeg(16, 24)).unwrap();
    assert_eq!(
        second,
        PdfPage {
            media_width: 16,
            media_height: 24,
            image_object_id: id(6),
            content_stream_id: id(7),
            resources_id: id(8),
            page_id: id(9),
        }
    );
    assert_eq!(assembler.page_count(), 2);
}

#[test]
fn finished_document_has_pages_in_embedding_order() {
    let sizes = [(3u32, 4u32), (10, 2), (6, 6)];
    let mut assembler = PdfAssembler::new();
    for (width, height) in sizes {
        assembler.embed(png(width, height)).unwrap();
    }
    let document = assembler.finish().ok().unwrap();
    assert_eq!(document.page_count(), 3);
    assert_eq!(document.page(1).unwrap().media_width, 10);
    assert!(document.page(3).is_none());
    let bytes = document.to_bytes().unwrap();
    assert!(bytes.starts_with(b"%PDF-1.5"));

    let loaded = lopdf::Document::load_mem(&bytes).unwrap();
    let pages = loaded.get_pages();
    assert_eq!(pages.len(), 3);
    for (position, (width, height)) in sizes.iter().enumerate() {
        let page = pages[&(position as u32 + 1)];
        assert_eq!(page, (4 * position as u32 + 5, 0));
        assert_eq!(media_box(&loaded, page), vec![0, 0, *width as i64, *height as i64]);
    }
    let tree = loaded.get_dictionary((1, 0)).unwrap();
    assert_eq!(tree.get(b"Count").unwrap().as_i64().unwrap(), 3);
    let catalog = loaded.catalog().unwrap();
    assert_eq!(catalog.get(b"Pages").unwrap().as_reference().unwrap(), (1, 0));
}

#[test]
fn page_content_paints_the_image_over_the_whole_page() {
    let mut assembler = PdfAssembler::new();
    assembler.embed(png(640, 480)).unwrap();
    let bytes = assembler.finish().ok().unwrap().to_bytes().unwrap();
    let loaded = lopdf::Document::load_mem(&bytes).unwrap();
    let page = loaded.get_pages()[&1];
    let content = loaded.get_object((3, 0)).unwrap().as_stream().unwrap().get_plain_content().unwrap();
    assert_eq!(String::from_utf8(content).unwrap(), "q\n640 0 0 480 0 0 cm\n/Img1 Do\nQ");
    assert_eq!(loaded.get_page_contents(page), vec![(3, 0)]);
    let images = loaded.get_page_images(page).unwrap();
    assert_eq!(images.len(), 1);
    assert_eq!((images[0].width, images[0].height), (640, 480));
    assert_eq!(images[0].id, (2, 0));
}

#[test]
fn empty_document_is_refused() {
    let assembler = PdfAssembler::new();
    assert_eq!(assembler.finish().err(), Some(AssemblyError::EmptyChapter));
}

#[test]
fn undecodable_bytes_leave_the_document_unchanged() {
    let mut assembler = PdfAssembler::new();
    assert_eq!(assembler.embed(b"not an image".to_vec()).err(), Some(AssemblyError::ImageDecode));
    assert_eq!(assembler.embed(Vec::new()).err(), Some(AssemblyError::ImageDecode));
    assert_eq!(assembler.page_count(), 0);
    let page = assembler.embed(png(2, 2)).unwrap();
    assert_eq!(page.page_id, id(5));
    assert_eq!(assembler.finish().ok().unwrap().page_count(), 1);
}

#[test]
fn all_pages_undecodable_gives_no_document() {
    let mut assembler = PdfAssembler::new();
    for _ in 0..3 {
        assert!(assembler.embed(vec![0u8; 16]).is_err());
    }
    assert_eq!(assembler.finish().err(), Some(AssemblyError::EmptyChapter));
}
