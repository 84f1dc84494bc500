//! What becomes of the page requests of one chapter: the verdict on each
//! reply, and the staged pages put back into manifest order.

use crate::assembler::AssemblyError;
use crate::manifest::{is_success, success_status};
use vstd::multiset::Multiset;
use vstd::prelude::*;
use vstd::seq_lib::*;

verus! {

/// A page image that was fetched and written to the staging area.
pub struct StagedPage {
    /// The ordinal of the manifest entry that the page was fetched for.
    pub ordinal: usize,
    /// Where the image is staged, relative to the staging root.
    pub local_path: String,
    pub byte_size: usize,
}

/// Why a page was dropped. A dropped page is not asked for again; the
/// chapter goes on without it.
#[derive(Clone, Copy, Debug, PartialEq, Eq, Structural)]
pub enum PageFetchFailure {
    /// The request or the reading of its body failed in transport.
    Unreachable,
    /// The server answered with a status outside 200..=299.
    Status(u16),
    /// The server answered with a body of no bytes.
    EmptyBody,
}

/// Why a chapter goes on without a page.
#[derive(Clone, Copy, Debug, PartialEq, Eq, Structural)]
pub enum DropReason {
    /// The page was not fetched.
    Fetch(PageFetchFailure),
    /// The fetched image could not be written to the staging area.
    NotStored,
    /// The staged image could not be read back.
    Unreadable,
    /// The staged image could not be embedded.
    Assembly(AssemblyError),
}

/// A page that the chapter goes on without.
#[derive(Clone, Copy, Debug, PartialEq, Eq, Structural)]
pub struct DroppedPage {
    pub ordinal: usize,
    pub reason: DropReason,
}

/// The verdict on the reply to a page request: `status` is `None` where
/// transport failed, `body_len` the number of bytes received.
pub open spec fn verdict_of(status: Option<u16>, body_len: nat) -> Option<PageFetchFailure> {
    match status {
        None => Some(PageFetchFailure::Unreachable),
        Some(code) => if !is_success(code) {
            Some(PageFetchFailure::Status(code))
        } else if body_len == 0 {
            Some(PageFetchFailure::EmptyBody)
        } else {
            None
        },
    }
}

/// Judges the reply to a page request: the page is kept exactly when the
/// server answered with a success status and a body that is not empty.
pub fn judge_reply(status: Option<u16>, body_len: usize) -> (r: Result<(), PageFetchFailure>)
    ensures
        match r {
            Ok(_) => verdict_of(status, body_len as nat) is None,
            Err(reason) => verdict_of(status, body_len as nat) == Some(reason),
        },
{
    match status {
        None => Err(PageFetchFailure::Unreachable),
        Some(code) => {
            if !success_status(code) {
                Err(PageFetchFailure::Status(code))
            } else if body_len == 0 {
                Err(PageFetchFailure::EmptyBody)
            } else {
                Ok(())
            }
        },
    }
}

/// Whether the ordinals of `pages` never decrease from one page to the next.
pub open spec fn sorted_by_ordinal(pages: Seq<StagedPage>) -> bool {
    forall|i: int, j: int| 0 <= i < j < pages.len() ==> pages[i].ordinal <= pages[j].ordinal
}

/// Whether no two of `pages` have the same ordinal.
pub open spec fn distinct_ordinals(pages: Seq<StagedPage>) -> bool {
    forall|i: int, j: int| 0 <= i < j < pages.len() ==> pages[i].ordinal != pages[j].ordinal
}

/// Whether `ordered` holds exactly the pages of `pages`, by rising ordinal.
pub open spec fn is_ordering_of(ordered: Seq<StagedPage>, pages: Seq<StagedPage>) -> bool {
    sorted_by_ordinal(ordered) && ordered.to_multiset() == pages.to_multiset()
}

/// Puts staged pages, given in the order in which their fetches completed,
/// into manifest order. No page is added, lost or changed.
pub fn order_pages(pages: Vec<StagedPage>) -> (r: Vec<StagedPage>)
    ensures
        is_ordering_of(r@, pages@),
        r.len() == pages.len(),
{
    let ghost all = pages@;
    let mut rest = pages;
    let mut out: Vec<StagedPage> = Vec::new();
    proof {
        broadcast use group_to_multiset_ensures;

        assert(out@.to_multiset().add(rest@.to_multiset()) =~= all.to_multiset());
    }
    while rest.len() > 0
        invariant
            sorted_by_ordinal(out@),
            out@.to_multiset().add(rest@.to_multiset()) == all.to_multiset(),
            out.len() + rest.len() == all.len(),
        decreases rest.len(),
    {
        let ghost before_rest = rest@;
        let ghost before_out = out@;
        let page = rest.pop().unwrap();
        let mut pos: usize = 0;
        while pos < out.len() && out[pos].ordinal <= page.ordinal
            invariant
                pos <= out.len(),
                forall|k: int| 0 <= k < pos ==> out[k].ordinal <= page.ordinal,
            decreases out.len() - pos,
        {
            pos = pos + 1;
        }
        out.insert(pos, page);
        proof {
            broadcast use group_to_multiset_ensures;

            assert(before_rest =~= rest@.push(page));
            assert(out@ == before_out.insert(pos as int, page));
            assert(before_out.insert(pos as int, page).to_multiset() =~= before_out.to_multiset().insert(
                page,
            ));
            assert(out@.to_multiset().add(rest@.to_multiset()) =~= before_out.to_multiset().add(
                before_rest.to_multiset(),
            ));
            assert forall|i: int, j: int| 0 <= i < j < out@.len() implies out@[i].ordinal
                <= out@[j].ordinal by {
                let a = if i < pos {
                    i
                } else {
                    i - 1
                };
                let b = if j < pos {
                    j
                } else {
                    j - 1
                };
                if i != pos && j != pos {
                    assert(out@[i] == before_out[a]);
                    assert(out@[j] == before_out[b]);
                } else if i == pos {
                    assert(out@[j] == before_out[b]);
                    assert(before_out[pos as int].ordinal <= before_out[b].ordinal);
                } else {
                    assert(out@[i] == before_out[a]);
                }
            }
        }
    }
    proof {
        assert(rest@.to_multiset() =~= Multiset::empty()) by {
            broadcast use group_to_multiset_ensures;

        }
        assert(out@.to_multiset() =~= all.to_multiset());
    }
    out
}

/// Putting pages into order keeps them as they are: the ordering has as
/// many pages, it holds a page exactly when the pages do, and where every
/// page had an ordinal of its own this is still so.
pub proof fn lemma_ordering_keeps_pages(ordered: Seq<StagedPage>, pages: Seq<StagedPage>)
    requires
        is_ordering_of(ordered, pages),
    ensures
        ordered.len() == pages.len(),
        forall|page: StagedPage| ordered.contains(page) <==> pages.contains(page),
        distinct_ordinals(pages) ==> distinct_ordinals(ordered),
{
    broadcast use group_to_multiset_ensures;

    assert(ordered.to_multiset().len() == ordered.len());
    assert(pages.to_multiset().len() == pages.len());
    assert forall|page: StagedPage| ordered.contains(page) <==> pages.contains(page) by {
        assert(ordered.contains(page) <==> ordered.to_multiset().count(page) > 0);
        assert(pages.contains(page) <==> pages.to_multiset().count(page) > 0);
    }
    if distinct_ordinals(pages) {
        lemma_distinct_carries_over(pages, ordered);
    }
}

proof fn lemma_distinct_carries_over(a: Seq<StagedPage>, b: Seq<StagedPage>)
    requires
        a.to_multiset() == b.to_multiset(),
        distinct_ordinals(a),
    ensures
        distinct_ordinals(b),
{
    broadcast use group_to_multiset_ensures;

    assert(a.no_duplicates());
    a.lemma_multiset_has_no_duplicates();
    b.lemma_multiset_has_no_duplicates_conv();
    assert forall|i: int, j: int| 0 <= i < j < b.len() implies b[i].ordinal != b[j].ordinal by {
        assert(b.contains(b[i]));
        assert(b.contains(b[j]));
        assert(a.to_multiset().count(b[i]) > 0);
        assert(a.to_multiset().count(b[j]) > 0);
        assert(a.contains(b[i]));
        assert(a.contains(b[j]));
        let p = choose|p: int| 0 <= p < a.len() && a[p] == b[i];
        let q = choose|q: int| 0 <= q < a.len() && a[q] == b[j];
        assert(p != q);
    }
}

/// The manifest order of a set of pages is unique: two orderings of the
/// same pages, each page with an ordinal of its own, are the same sequence.
pub proof fn lemma_ordering_unique(a: Seq<StagedPage>, b: Seq<StagedPage>)
    requires
        sorted_by_ordinal(a),
        sorted_by_ordinal(b),
        a.to_multiset() == b.to_multiset(),
        distinct_ordinals(a),
    ensures
        a == b,
    decreases a.len(),
{
    broadcast use group_to_multiset_ensures;

    assert(a.to_multiset().len() == a.len());
    assert(b.to_multiset().len() == b.len());
    if a.len() == 0 {
        assert(a =~= b);
    } else {
        assert(b.contains(b[0]));
        assert(a.contains(a[0]));
        assert(a.to_multiset().count(b[0]) > 0);
        assert(b.to_multiset().count(a[0]) > 0);
        assert(a.contains(b[0]));
        assert(b.contains(a[0]));
        let i = choose|i: int| 0 <= i < a.len() && a[i] == b[0];
        let j = choose|j: int| 0 <= j < b.len() && b[j] == a[0];
        assert(a[0].ordinal <= a[i].ordinal);
        assert(b[0].ordinal <= b[j].ordinal);
        assert(i == 0);
        assert(a.remove(0) =~= a.drop_first());
        assert(b.remove(0) =~= b.drop_first());
        assert(a.drop_first().to_multiset() == b.drop_first().to_multiset());
        assert forall|x: int, y: int| 0 <= x < y < a.drop_first().len() implies a.drop_first()[x].ordinal
            <= a.drop_first()[y].ordinal && a.drop_first()[x].ordinal != a.drop_first()[y].ordinal by {
            assert(a.drop_first()[x] == a[x + 1]);
            assert(a.drop_first()[y] == a[y + 1]);
        }
        assert forall|x: int, y: int| 0 <= x < y < b.drop_first().len() implies b.drop_first()[x].ordinal
            <= b.drop_first()[y].ordinal by {
            assert(b.drop_first()[x] == b[x + 1]);
            assert(b.drop_first()[y] == b[y + 1]);
        }
        lemma_ordering_unique(a.drop_first(), b.drop_first());
        assert(a =~= seq![a[0]] + a.drop_first());
        assert(b =~= seq![b[0]] + b.drop_first());
    }
}

/// The order in which fetches complete does not show in the result: two
/// runs that stage the same pages, in any two orders of completion, are put
/// into the same sequence.
pub proof fn lemma_completion_order_is_irrelevant(
    first: Seq<StagedPage>,
    second: Seq<StagedPage>,
    ordered_first: Seq<StagedPage>,
    ordered_second: Seq<StagedPage>,
)
    requires
        first.to_multiset() == second.to_multiset(),
        distinct_ordinals(first),
        is_ordering_of(ordered_first, first),
        is_ordering_of(ordered_second, second),
    ensures
        ordered_first == ordered_second,
{
    lemma_distinct_carries_over(first, ordered_first);
    lemma_ordering_unique(ordered_first, ordered_second);
}

/// Whether every number of `s` is less than the one after it.
pub open spec fn rising(s: Seq<usize>) -> bool {
    forall|i: int, j: int| 0 <= i < j < s.len() ==> s[i] < s[j]
}

/// The ordinals of `pages`, in order.
pub open spec fn ordinals_of(pages: Seq<StagedPage>) -> Seq<usize> {
    Seq::new(pages.len(), |i: int| pages[i].ordinal)
}

proof fn lemma_rising_from_below(s: Seq<usize>, i: int)
    requires
        rising(s),
        0 <= i < s.len(),
    ensures
        s[i] >= i,
    decreases i,
{
    if i > 0 {
        lemma_rising_from_below(s, i - 1);
    }
}

proof fn lemma_rising_from_above(s: Seq<usize>, i: int)
    requires
        rising(s),
        forall|k: int| 0 <= k < s.len() ==> s[k] < s.len(),
        0 <= i < s.len(),
    ensures
        s[i] <= i,
    decreases s.len() - i,
{
    if i < s.len() - 1 {
        lemma_rising_from_above(s, i + 1);
    }
}

/// Rising numbers that are all below their count are the numbers from
/// zero on, each in its place.
pub proof fn lemma_rising_and_full(s: Seq<usize>)
    requires
        rising(s),
        forall|k: int| 0 <= k < s.len() ==> s[k] < s.len(),
    ensures
        forall|i: int| 0 <= i < s.len() ==> s[i] == i,
{
    assert forall|i: int| 0 <= i < s.len() implies s[i] == i by {
        lemma_rising_from_below(s, i);
        lemma_rising_from_above(s, i);
    }
}

/// A chapter without drops comes out complete and in manifest order: where
/// `count` pages were staged, each with an ordinal of its own below
/// `count`, their ordering has `count` pages and its page at position `i`
/// is the one with ordinal `i`.
pub proof fn lemma_complete_chapter_in_manifest_order(
    pages: Seq<StagedPage>,
    ordered: Seq<StagedPage>,
    count: nat,
)
    requires
        pages.len() == count,
        distinct_ordinals(pages),
        forall|k: int| 0 <= k < pages.len() ==> pages[k].ordinal < count,
        is_ordering_of(ordered, pages),
    ensures
        ordered.len() == count,
        forall|i: int| 0 <= i < count ==> (#[trigger] ordered[i]).ordinal == i,
{
    broadcast use group_to_multiset_ensures;

    lemma_distinct_carries_over(pages, ordered);
    assert(ordered.to_multiset().len() == ordered.len());
    assert(pages.to_multiset().len() == pages.len());
    assert forall|k: int| 0 <= k < ordered.len() implies ordered[k].ordinal < ordered.len() by {
        assert(ordered.contains(ordered[k]));
        assert(pages.to_multiset().count(ordered[k]) > 0);
        assert(pages.contains(ordered[k]));
        let p = choose|p: int| 0 <= p < pages.len() && pages[p] == ordered[k];
        assert(pages[p].ordinal < count);
    }
    let ordinals = ordinals_of(ordered);
    assert forall|k: int| 0 <= k < ordinals.len() implies ordinals[k] < ordinals.len() by {
        assert(ordinals[k] == ordered[k].ordinal);
    }
    lemma_rising_and_full(ordinals);
    assert forall|i: int| 0 <= i < count implies (#[trigger] ordered[i]).ordinal == i by {
        assert(ordinals[i] == ordered[i].ordinal);
    }
}

} // verus!
