use manga_pdf::naming::{
    chapter_namespace, manifest_url, ordinal_width, output_name, page_url, staged_name,
    staged_path,
};
use manga_pdf::text::{decimal_length, push_zero_padded, sanitize_component};

#[test]
fn sanitize_replaces_both_separators() {
    assert_eq!(sanitize_component("One/Two\\Three"), "One_Two_Three");
    assert_eq!(sanitize_component("plain title"), "plain title");
    assert_eq!(sanitize_component(""), "");
}

#[test]
fn decimal_length_counts_digits() {
    assert_eq!(decimal_length(0), 1);
    assert_eq!(decimal_length(9), 1);
    assert_eq!(decimal_length(10), 2);
    assert_eq!(decimal_length(9999), 4);
    assert_eq!(decimal_length(10000), 5);
    assert_eq!(decimal_length(usize::MAX), usize::MAX.to_string().len());
}

#[test]
fn zero_padding_matches_minimum_width_formatting() {
    for (n, width) in [(0usize, 4usize), (7, 4), (42, 4), (9999, 4), (10000, 4), (123, 0), (5, 1)] {
        let mut out = String::from("x");
        push_zero_padded(&mut out, n, width);
        assert_eq!(out, format!("x{:0width$}", n, width = width));
    }
}

#[test]
fn staged_name_has_padded_ordinal_and_clean_file_name() {
    assert_eq!(staged_name(4, 0, "p1.png"), "0000_p1.png");
    assert_eq!(staged_name(4, 12, "a/b\\c.jpg"), "0012_a_b_c.jpg");
    assert_eq!(staged_name(5, 12, "x.png"), "00012_x.png");
}

#[test]
fn staged_names_sort_like_ordinals() {
    let width = ordinal_width(12000);
    assert_eq!(width, 5);
    let mut names: Vec<String> = [11999usize, 3, 10000, 9999, 0, 250]
        .iter()
        .map(|o| staged_name(width, *o, "z.png"))
        .collect();
    names.sort();
    let expected: Vec<String> = [0usize, 3, 250, 9999, 10000, 11999]
        .iter()
        .map(|o| staged_name(width, *o, "z.png"))
        .collect();
    assert_eq!(names, expected);
}

#[test]
fn ordinal_width_is_at_least_four() {
    assert_eq!(ordinal_width(0), 4);
    assert_eq!(ordinal_width(3), 4);
    assert_eq!(ordinal_width(9999), 4);
    assert_eq!(ordinal_width(10000), 5);
}

#[test]
fn staged_paths_of_two_chapters_never_collide() {
    let a = staged_path("chapter-a", 4, 0, "p1.png");
    let b = staged_path("chapter-b", 4, 0, "p1.png");
    assert_eq!(a, "chapter-a/0000_p1.png");
    assert_eq!(b, "chapter-b/0000_p1.png");
    assert_ne!(a, b);
}

#[test]
fn namespace_keeps_plain_characters_and_escapes_the_rest() {
    assert_eq!(chapter_namespace("a1b2c3d4-0000-4abc-8def-1234567890ab"), "ca1b2c3d4-0000-4abc-8def-1234567890ab");
    assert_eq!(chapter_namespace(""), "c");
    assert_eq!(chapter_namespace("a/b"), "ca_0000047b");
    assert_eq!(chapter_namespace("a\\b"), "ca_0000092b");
    assert_eq!(chapter_namespace("a_b"), "ca_0000095b");
    assert_eq!(chapter_namespace(".."), "c_0000046_0000046");
    assert_eq!(chapter_namespace("caf\u{e9}"), "ccaf_0000233");
    assert_eq!(chapter_namespace("\u{10ffff}"), "c_1114111");
}

#[test]
fn namespaces_of_different_identifiers_differ() {
    let ids = ["", "a", "a/", "a/0000_x", "a_0000047", "_", "0000047", "A", "a-", "\u{e9}"];
    for (i, first) in ids.iter().enumerate() {
        for second in ids.iter().skip(i + 1) {
            assert_ne!(chapter_namespace(first), chapter_namespace(second), "{} {}", first, second);
        }
    }
    let inner = staged_path(&chapter_namespace("a"), 4, 0, "x/0000_y");
    let outer = staged_path(&chapter_namespace("a/0000_x"), 4, 0, "y");
    assert_eq!(inner, "ca/0000_x_0000_y");
    assert_eq!(outer, "ca_00000470000_0000095x/0000_y");
    assert_ne!(inner, outer);
}

#[test]
fn addresses_are_joined_as_documented() {
    assert_eq!(manifest_url("abc"), "https://api.mangadex.org/at-home/server/abc");
    assert_eq!(
        page_url("https://host.example", "h4sh", "p1.png"),
        "https://host.example/data/h4sh/p1.png"
    );
}

#[test]
fn output_name_uses_chapter_number() {
    assert_eq!(output_name("12.5"), "Chapter_12.5.pdf");
    assert_eq!(output_name(""), "Chapter_.pdf");
}
