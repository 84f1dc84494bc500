//! Names that the pipeline gives to things: request addresses, the staging
//! location of a fetched page, and the output document of a chapter.

use crate::text::{
    decimal_length, decimal_len, lemma_char_code_digits, lemma_decimal_len_monotonic,
    is_digit, lemma_zero_padded_digits, lemma_zero_padded_order, lex_lt, push_zero_padded,
    sanitize_component, sanitized, zero_padded,
};
use vstd::prelude::*;
use vstd::string::*;

verus! {

/// The least number of digits in the ordinal prefix of a staged file.
pub const MIN_ORDINAL_WIDTH: usize = 4;

/// Whether `c` may occur in a staging namespace: an ASCII letter or digit, a
/// hyphen or an underscore.
pub open spec fn is_component_char(c: char) -> bool {
    let v = c as u32;
    (48 <= v <= 57) || (65 <= v <= 90) || (97 <= v <= 122) || v == 45 || v == 95
}

/// Whether `s` can name a staging namespace: it is not empty and holds
/// component characters only, so it names exactly one directory level.
pub open spec fn is_safe_component(s: Seq<char>) -> bool {
    s.len() > 0 && forall|i: int| 0 <= i < s.len() ==> is_component_char(#[trigger] s[i])
}

/// Whether `c` stands for itself in a staging namespace: an ASCII letter
/// or digit, or a hyphen.
pub open spec fn is_plain_char(c: char) -> bool {
    let v = c as u32;
    (48 <= v <= 57) || (65 <= v <= 90) || (97 <= v <= 122) || v == 45
}

/// What stands for `c` in a staging namespace: the character itself where
/// it is plain, else an underscore and its code in seven decimal digits.
pub open spec fn escape_of(c: char) -> Seq<char> {
    if is_plain_char(c) {
        seq![c]
    } else {
        seq!['_'] + zero_padded(c as u32 as nat, 7)
    }
}

/// `s` with every character replaced by what stands for it.
pub open spec fn escaped(s: Seq<char>) -> Seq<char>
    decreases s.len(),
{
    if s.len() == 0 {
        Seq::empty()
    } else {
        escape_of(s[0]) + escaped(s.drop_first())
    }
}

/// The staging namespace of the chapter with identifier `chapter_id`: the
/// letter `c` and then the identifier, escaped. Any identifier has one,
/// and different identifiers have different ones.
pub open spec fn namespace_of(chapter_id: Seq<char>) -> Seq<char> {
    seq!['c'] + escaped(chapter_id)
}

/// The address of the page list of chapter `chapter_id`.
pub open spec fn manifest_url_of(chapter_id: Seq<char>) -> Seq<char> {
    "https://api.mangadex.org/at-home/server/"@ + chapter_id
}

/// The address of one page image: base address, the chapter's hash token
/// and the remote file name, joined as `<base>/data/<hash>/<file>`.
pub open spec fn page_url_of(base_url: Seq<char>, hash: Seq<char>, filename: Seq<char>) -> Seq<
    char,
> {
    (base_url + "/data/"@ + hash).push('/') + filename
}

/// The ordinal width used for a chapter of `page_count` pages: wide enough
/// for every ordinal below `page_count`, and never under four digits.
pub open spec fn ordinal_width_of(page_count: nat) -> nat {
    if decimal_len(page_count) > MIN_ORDINAL_WIDTH as nat {
        decimal_len(page_count)
    } else {
        MIN_ORDINAL_WIDTH as nat
    }
}

/// The file name of a staged page inside its namespace: the zero-padded
/// ordinal, an underscore, and the remote file name without separators.
pub open spec fn staged_name_of(width: nat, ordinal: nat, filename: Seq<char>) -> Seq<char> {
    zero_padded(ordinal, width).push('_') + sanitized(filename)
}

/// The staging location of a page, relative to the staging root: the
/// chapter's namespace as a directory, then the staged file name.
pub open spec fn staged_path_of(
    namespace: Seq<char>,
    width: nat,
    ordinal: nat,
    filename: Seq<char>,
) -> Seq<char> {
    namespace.push('/') + staged_name_of(width, ordinal, filename)
}

/// The name of the document written for the chapter numbered `number`.
pub open spec fn output_name_of(number: Seq<char>) -> Seq<char> {
    "Chapter_"@ + number + ".pdf"@
}

/// Builds the staging namespace of a chapter from its identifier.
pub fn chapter_namespace(chapter_id: &str) -> (r: String)
    ensures
        r@ == namespace_of(chapter_id@),
{
    let mut out = String::new();
    out.push('c');
    let ghost head = out@;
    assert(chapter_id@.skip(0) =~= chapter_id@);
    for c in it: chapter_id.chars()
        invariant
            it.seq() == chapter_id@,
            head + escaped(chapter_id@) == out@ + escaped(chapter_id@.skip(it.index() as int)),
    {
        let ghost rest = chapter_id@.skip(it.index() as int);
        let ghost before = out@;
        assert(rest[0] == c);
        assert(rest.drop_first() =~= chapter_id@.skip(it.index() + 1));
        let v: u32 = c as u32;
        if (48 <= v && v <= 57) || (65 <= v && v <= 90) || (97 <= v && v <= 122) || v == 45 {
            out.push(c);
            assert(out@ =~= before + escape_of(c));
        } else {
            out.push('_');
            push_zero_padded(&mut out, v as usize, 7);
            assert(out@ =~= before + escape_of(c));
        }
        assert(before + escaped(rest) =~= before + escape_of(c) + escaped(rest.drop_first()));
    }
    assert(chapter_id@.skip(chapter_id@.len() as int) =~= Seq::<char>::empty());
    assert(out@ =~= head + escaped(chapter_id@));
    out
}

/// Builds the address of the page list of a chapter.
pub fn manifest_url(chapter_id: &str) -> (r: String)
    ensures
        r@ == manifest_url_of(chapter_id@),
{
    let mut out = String::from_str("https://api.mangadex.org/at-home/server/");
    out.append(chapter_id);
    out
}

/// Builds the address of one page image.
pub fn page_url(base_url: &str, hash: &str, filename: &str) -> (r: String)
    ensures
        r@ == page_url_of(base_url@, hash@, filename@),
{
    let mut out = String::from_str(base_url);
    out.append("/data/");
    out.append(hash);
    out.push('/');
    out.append(filename);
    out
}

/// The ordinal width for a chapter of `page_count` pages.
pub fn ordinal_width(page_count: usize) -> (r: usize)
    ensures
        r == ordinal_width_of(page_count as nat),
        MIN_ORDINAL_WIDTH <= r <= 20,
{
    let digits = decimal_length(page_count);
    if digits > MIN_ORDINAL_WIDTH {
        digits
    } else {
        MIN_ORDINAL_WIDTH
    }
}

/// Builds the file name of a staged page.
pub fn staged_name(width: usize, ordinal: usize, filename: &str) -> (r: String)
    ensures
        r@ == staged_name_of(width as nat, ordinal as nat, filename@),
{
    let mut out = String::new();
    push_zero_padded(&mut out, ordinal, width);
    out.push('_');
    let tail = sanitize_component(filename);
    out.append(tail.as_str());
    assert(out@ =~= staged_name_of(width as nat, ordinal as nat, filename@));
    out
}

/// Builds the staging location of a page below the staging root.
pub fn staged_path(namespace: &str, width: usize, ordinal: usize, filename: &str) -> (r: String)
    ensures
        r@ == staged_path_of(namespace@, width as nat, ordinal as nat, filename@),
{
    let mut out = String::from_str(namespace);
    out.push('/');
    let name = staged_name(width, ordinal, filename);
    out.append(name.as_str());
    out
}

/// Builds the name of the output document of a chapter.
pub fn output_name(number: &str) -> (r: String)
    ensures
        r@ == output_name_of(number@),
{
    let mut out = String::from_str("Chapter_");
    out.append(number);
    out.append(".pdf");
    out
}

/// Two different namespaces never share a staged path, whatever the
/// ordinals and remote file names are.
pub proof fn lemma_namespaces_isolated(
    first: Seq<char>,
    second: Seq<char>,
    width1: nat,
    ordinal1: nat,
    filename1: Seq<char>,
    width2: nat,
    ordinal2: nat,
    filename2: Seq<char>,
)
    requires
        is_safe_component(first),
        is_safe_component(second),
        first != second,
    ensures
        staged_path_of(first, width1, ordinal1, filename1) != staged_path_of(
            second,
            width2,
            ordinal2,
            filename2,
        ),
{
    let p = staged_path_of(first, width1, ordinal1, filename1);
    let q = staged_path_of(second, width2, ordinal2, filename2);
    if p == q {
        assert(p[first.len() as int] == '/');
        assert(q[second.len() as int] == '/');
        assert(!is_component_char('/'));
        if first.len() == second.len() {
            assert(first =~= p.take(first.len() as int));
            assert(second =~= q.take(second.len() as int));
        } else if first.len() < second.len() {
            assert(q[first.len() as int] == second[first.len() as int]);
        } else {
            assert(p[second.len() as int] == first[second.len() as int]);
        }
    }
}

proof fn lemma_code_names_char(x: char, y: char)
    requires
        x as u32 == y as u32,
    ensures
        x == y,
{
}

proof fn lemma_digit_is_component(c: char)
    requires
        is_digit(c),
    ensures
        is_component_char(c),
        c != '_',
{
}

proof fn lemma_escape_shape(c: char)
    ensures
        is_plain_char(c) ==> escape_of(c).len() == 1 && escape_of(c)[0] == c,
        !is_plain_char(c) ==> escape_of(c).len() == 8 && escape_of(c)[0] == '_',
        forall|i: int| 0 <= i < escape_of(c).len() ==> is_component_char(#[trigger] escape_of(c)[i]),
        escape_of(c)[0] == '_' <==> !is_plain_char(c),
{
    lemma_char_code_digits(c);
    lemma_zero_padded_order(c as u32 as nat, c as u32 as nat, 7);
    lemma_zero_padded_digits(c as u32 as nat, 7);
    if !is_plain_char(c) {
        let digits = zero_padded(c as u32 as nat, 7);
        assert forall|i: int| 0 <= i < escape_of(c).len() implies is_component_char(
            #[trigger] escape_of(c)[i],
        ) by {
            if i > 0 {
                assert(escape_of(c)[i] == digits[i - 1]);
                lemma_digit_is_component(digits[i - 1]);
            }
        }
    }
}

proof fn lemma_escaped_is_safe(s: Seq<char>)
    ensures
        forall|i: int| 0 <= i < escaped(s).len() ==> is_component_char(#[trigger] escaped(s)[i]),
    decreases s.len(),
{
    if s.len() > 0 {
        lemma_escape_shape(s[0]);
        lemma_escaped_is_safe(s.drop_first());
        let head = escape_of(s[0]);
        let tail = escaped(s.drop_first());
        assert forall|i: int| 0 <= i < escaped(s).len() implies is_component_char(
            #[trigger] escaped(s)[i],
        ) by {
            if i < head.len() {
                assert(escaped(s)[i] == head[i]);
            } else {
                assert(escaped(s)[i] == tail[i - head.len()]);
            }
        }
    }
}

proof fn lemma_escaped_injective(a: Seq<char>, b: Seq<char>)
    requires
        escaped(a) == escaped(b),
    ensures
        a == b,
    decreases a.len(),
{
    if a.len() == 0 {
        if b.len() > 0 {
            lemma_escape_shape(b[0]);
            assert(escaped(b).len() >= escape_of(b[0]).len());
        }
        assert(a =~= b);
    } else {
        lemma_escape_shape(a[0]);
        let x = escape_of(a[0]);
        let xs = escaped(a.drop_first());
        if b.len() == 0 {
            assert(escaped(a).len() >= x.len());
        } else {
            lemma_escape_shape(b[0]);
            let y = escape_of(b[0]);
            let ys = escaped(b.drop_first());
            assert(escaped(a)[0] == x[0]);
            assert(escaped(b)[0] == y[0]);
            assert(x.len() == y.len());
            assert(x =~= escaped(a).take(x.len() as int));
            assert(y =~= escaped(b).take(y.len() as int));
            assert(xs =~= escaped(a).skip(x.len() as int));
            assert(ys =~= escaped(b).skip(y.len() as int));
            if !is_plain_char(a[0]) {
                lemma_char_code_digits(a[0]);
                lemma_char_code_digits(b[0]);
                lemma_zero_padded_order(a[0] as u32 as nat, b[0] as u32 as nat, 7);
                assert(zero_padded(a[0] as u32 as nat, 7) =~= x.skip(1));
                assert(zero_padded(b[0] as u32 as nat, 7) =~= y.skip(1));
                lemma_code_names_char(a[0], b[0]);
            } else {
                assert(x[0] == y[0]);
            }
            assert(a[0] == b[0]);
            lemma_escaped_injective(a.drop_first(), b.drop_first());
            assert(a =~= seq![a[0]] + a.drop_first());
            assert(b =~= seq![b[0]] + b.drop_first());
        }
    }
}

/// The staging namespace of any chapter can name a directory: it is not
/// empty and holds component characters only.
pub proof fn lemma_namespace_is_safe(chapter_id: Seq<char>)
    ensures
        is_safe_component(namespace_of(chapter_id)),
{
    lemma_escaped_is_safe(chapter_id);
    let ns = namespace_of(chapter_id);
    assert forall|i: int| 0 <= i < ns.len() implies is_component_char(#[trigger] ns[i]) by {
        if i > 0 {
            assert(ns[i] == escaped(chapter_id)[i - 1]);
        }
    }
}

/// Namespace isolation: two chapters with different identifiers never
/// share a staged path, whatever their ordinals and remote file names are.
pub proof fn lemma_chapters_isolated(
    first_id: Seq<char>,
    second_id: Seq<char>,
    width1: nat,
    ordinal1: nat,
    filename1: Seq<char>,
    width2: nat,
    ordinal2: nat,
    filename2: Seq<char>,
)
    requires
        first_id != second_id,
    ensures
        staged_path_of(namespace_of(first_id), width1, ordinal1, filename1) != staged_path_of(
            namespace_of(second_id),
            width2,
            ordinal2,
            filename2,
        ),
{
    lemma_namespace_is_safe(first_id);
    lemma_namespace_is_safe(second_id);
    if namespace_of(first_id) == namespace_of(second_id) {
        assert(escaped(first_id) =~= namespace_of(first_id).skip(1));
        assert(escaped(second_id) =~= namespace_of(second_id).skip(1));
        lemma_escaped_injective(first_id, second_id);
    }
    lemma_namespaces_isolated(
        namespace_of(first_id),
        namespace_of(second_id),
        width1,
        ordinal1,
        filename1,
        width2,
        ordinal2,
        filename2,
    );
}

proof fn lemma_lex_lt_prefix(p: Seq<char>, q: Seq<char>, x: Seq<char>, y: Seq<char>)
    requires
        p.len() == q.len(),
        p != q,
    ensures
        lex_lt(p + x, q + y) <==> lex_lt(p, q),
    decreases p.len(),
{
    if p.len() == 0 {
        assert(p =~= q);
    } else {
        assert((p + x).drop_first() =~= p.drop_first() + x);
        assert((q + y).drop_first() =~= q.drop_first() + y);
        if p[0] == q[0] {
            if p.drop_first() == q.drop_first() {
                assert(p =~= seq![p[0]] + p.drop_first());
                assert(q =~= seq![q[0]] + q.drop_first());
            }
            lemma_lex_lt_prefix(p.drop_first(), q.drop_first(), x, y);
        }
    }
}

/// Within one chapter the staged names sort as the ordinals do: for two
/// ordinals below the page count, the smaller one has the lexically smaller
/// staged name, and different ordinals have different staged names.
pub proof fn lemma_staged_names_sort_by_ordinal(
    page_count: nat,
    ordinal1: nat,
    filename1: Seq<char>,
    ordinal2: nat,
    filename2: Seq<char>,
)
    requires
        ordinal1 < page_count,
        ordinal2 < page_count,
        ordinal1 != ordinal2,
    ensures
        ordinal1 < ordinal2 <==> lex_lt(
            staged_name_of(ordinal_width_of(page_count), ordinal1, filename1),
            staged_name_of(ordinal_width_of(page_count), ordinal2, filename2),
        ),
        staged_name_of(ordinal_width_of(page_count), ordinal1, filename1) != staged_name_of(
            ordinal_width_of(page_count),
            ordinal2,
            filename2,
        ),
{
    let width = ordinal_width_of(page_count);
    lemma_decimal_len_monotonic(ordinal1, page_count);
    lemma_decimal_len_monotonic(ordinal2, page_count);
    lemma_zero_padded_order(ordinal1, ordinal2, width);
    lemma_zero_padded_order(ordinal2, ordinal1, width);
    let p = zero_padded(ordinal1, width);
    let q = zero_padded(ordinal2, width);
    let x = seq!['_'] + sanitized(filename1);
    let y = seq!['_'] + sanitized(filename2);
    let a = staged_name_of(width, ordinal1, filename1);
    let b = staged_name_of(width, ordinal2, filename2);
    assert(a =~= p + x);
    assert(b =~= q + y);
    lemma_lex_lt_prefix(p, q, x, y);
    if a == b {
        assert(p =~= a.take(width as int));
        assert(q =~= b.take(width as int));
    }
}

} // verus!
