//! The pagination engine: a bounded, filtered accumulator over a
//! backend's row stream.
//!
//! The backend yields candidate rows one at a time, in descending
//! timestamp order. For each row the paginator decodes the stored bytes
//! (a corrupt row aborts the whole page rather than being skipped —
//! corruption should be visible), applies the shared default display
//! filter, and either appends the row, passes over it, or — when the
//! page is full and one more displayable row arrives — records that
//! more rows remain and asks the backend to stop.

use vstd::prelude::*;

use crate::bound;
use crate::item::{display_by_default, Item, ItemV};
use crate::store::{ItemDisplayRow, ItemDisplayRowV};
use crate::wire::{decode_item, spec_decode};

verus! {

/// The caller's paging request: an exclusive upper bound on timestamps
/// (default: now) and a page size (clamped to `[1, 100]`, default 20).
#[derive(Clone, Copy)]
pub struct Pagination {
    /// Show only items from before this time. Default is now.
    pub before: Option<i64>,
    /// Limit how many items appear on a page.
    pub count: Option<usize>,
}

/// The page size a request asks for: `count` clamped to `[1, 100]`,
/// or 20 when absent.
pub open spec fn spec_page_len(p: Pagination) -> int {
    match p.count {
        Option::None => 20,
        Option::Some(c) => if c < 1 {
            1
        } else if c > 100 {
            100
        } else {
            c as int
        },
    }
}

/// Why a page request failed: a stored row whose bytes no longer decode.
#[derive(Clone, Copy, PartialEq, Eq, Structural, Debug)]
pub enum PageError {
    CorruptRow,
}

/// The note shown in place of an empty page: "nothing to display" for a
/// fresh feed, "no more items" when a cursor was followed to the end.
#[derive(Clone, Copy, PartialEq, Eq, Structural, Debug)]
pub enum PageMessage {
    NothingToDisplay,
    NoMoreItems,
}

/// The continuation of a full page: the `before` cursor is the timestamp
/// of the last item actually included in the page, so following it never
/// skips or duplicates an item; `count` echoes the caller's request.
#[derive(Clone, Copy, PartialEq, Eq, Structural, Debug)]
pub struct MoreLink {
    pub before: i64,
    pub count: Option<usize>,
}

/// An item as a page displays it: the stored row together with its
/// decoded form.
pub struct IndexPageItem {
    pub row: ItemDisplayRow,
    pub item: Item,
}

/// Spec-level mirror of `IndexPageItem`.
#[verifier::ext_equal]
pub struct IndexPageItemV {
    pub row: ItemDisplayRowV,
    pub item: ItemV,
}

impl View for IndexPageItem {
    type V = IndexPageItemV;

    open spec fn view(&self) -> IndexPageItemV {
        IndexPageItemV { row: self.row@, item: self.item@ }
    }
}

/// Whether a stored row still decodes as an item.
pub open spec fn row_decodes(r: ItemDisplayRowV) -> bool {
    spec_decode(r.item.item_bytes) is Some
}

/// Whether a stored row is displayed by default: it decodes, and the
/// shared display filter keeps it.
pub open spec fn row_shown(r: ItemDisplayRowV) -> bool {
    row_decodes(r) && spec_decode(r.item.item_bytes)->Some_0.shown_by_default()
}

/// A page item is coherent: its decoded form is the decoding of its row.
pub open spec fn page_item_ok(p: IndexPageItemV) -> bool {
    row_shown(p.row) && spec_decode(p.row.item.item_bytes) == Some(p.item)
}

/// What paging over `rows` with capacity `max` yields: `None` when a
/// corrupt row is scanned, otherwise the included rows and whether a
/// displayable row beyond the page boundary was seen.
pub open spec fn spec_page(rows: Seq<ItemDisplayRowV>, max: int) -> Option<
    (Seq<ItemDisplayRowV>, bool),
>
    decreases rows.len(),
{
    if rows.len() == 0 {
        Some((Seq::empty(), false))
    } else if !row_decodes(rows[0]) {
        None
    } else if !row_shown(rows[0]) {
        spec_page(rows.drop_first(), max)
    } else if max <= 0 {
        Some((Seq::empty(), true))
    } else {
        match spec_page(rows.drop_first(), max - 1) {
            Option::None => None,
            Option::Some((items, more)) => Some((seq![rows[0]] + items, more)),
        }
    }
}

/// Collects backend rows into one bounded, filtered page.
pub struct Paginator {
    /// The rows included so far, oldest last.
    pub items: Vec<IndexPageItem>,
    /// Whether a displayable row beyond the page boundary was seen.
    pub has_more: bool,
    /// The caller's paging request.
    pub options: Pagination,
}

impl Paginator {
    /// The rows of the included items, in order.
    pub open spec fn rows_view(&self) -> Seq<ItemDisplayRowV> {
        self.items@.map_values(|p: IndexPageItem| p@.row)
    }

    /// Every included item is coherent.
    pub open spec fn items_ok(&self) -> bool {
        forall|i: int| 0 <= i < self.items@.len() ==> page_item_ok(#[trigger] self.items@[i]@)
    }

    /// A fresh paginator for the given request.
    pub fn new(options: Pagination) -> (r: Paginator)
        ensures
            r.items@.len() == 0,
            !r.has_more,
            r.options == options,
            r.items_ok(),
    {
        Paginator { items: Vec::new(), has_more: false, options }
    }

    /// The per-row protocol: decode, filter, and either append the row,
    /// pass over it, or record that the page boundary was crossed.
    /// `Ok(true)` asks the backend for the next row; `Ok(false)` asks it
    /// to stop; a row that no longer decodes aborts the page.
    pub fn accept(&mut self, input: ItemDisplayRow) -> (r: Result<bool, PageError>)
        ensures
            final(self).options == old(self).options,
            !row_decodes(input@) ==> r == Result::<bool, PageError>::Err(PageError::CorruptRow)
                && *final(self) == *old(self),
            row_decodes(input@) && !row_shown(input@) ==> r == Result::<bool, PageError>::Ok(true)
                && *final(self) == *old(self),
            row_shown(input@) && old(self).items@.len() >= spec_page_len(old(self).options)
                ==> r == Result::<bool, PageError>::Ok(false) && final(self).items == old(self).items && final(self).has_more,
            row_shown(input@) && old(self).items@.len() < spec_page_len(old(self).options) ==> r
                == Result::<bool, PageError>::Ok(true) && final(self).has_more == old(self).has_more && final(self).items@.len() == old(self).items@.len() + 1 && final(self).items@.last()@.row == input@ && page_item_ok(final(self).items@.last()@) && final(self).items@.subrange(
                0,
                old(self).items@.len() as int,
            ) == old(self).items@,
    {
        let max_len: usize = match self.options.count {
            Option::None => 20,
            Option::Some(c) => bound(c, 1, 100),
        };
        assert(max_len as int == spec_page_len(self.options));

        let item = match decode_item(input.item.item_bytes.as_slice()) {
            Option::Some(item) => item,
            Option::None => {
                return Err(PageError::CorruptRow);
            },
        };
        if !display_by_default(&item) {
            return Ok(true);  // continue
        }
        if self.items.len() >= max_len {
            self.has_more = true;
            return Ok(false);  // stop
        }
        self.items.push(IndexPageItem { row: input, item });
        assert(self.items@.subrange(0, old(self).items@.len() as int) =~= old(self).items@);
        Ok(true)
    }

    /// The push-style entry point a backend driver invokes once per
    /// candidate row; same protocol as `accept`.
    pub fn callback(&mut self, input: ItemDisplayRow) -> (r: Result<bool, PageError>)
        ensures
            final(self).options == old(self).options,
            !row_decodes(input@) ==> r == Result::<bool, PageError>::Err(PageError::CorruptRow)
                && *final(self) == *old(self),
            row_decodes(input@) && !row_shown(input@) ==> r == Result::<bool, PageError>::Ok(true)
                && *final(self) == *old(self),
            row_shown(input@) && old(self).items@.len() >= spec_page_len(old(self).options)
                ==> r == Result::<bool, PageError>::Ok(false) && final(self).items == old(self).items && final(self).has_more,
            row_shown(input@) && old(self).items@.len() < spec_page_len(old(self).options) ==> r
                == Result::<bool, PageError>::Ok(true) && final(self).has_more == old(self).has_more && final(self).items@.len() == old(self).items@.len() + 1 && final(self).items@.last()@.row == input@ && page_item_ok(final(self).items@.last()@) && final(self).items@.subrange(
                0,
                old(self).items@.len() as int,
            ) == old(self).items@,
    {
        self.accept(input)
    }

    /// Drive the whole page: feed every row, in the order given, until
    /// the page protocol asks to stop. The result is exactly what
    /// `spec_page` says for these rows and this request.
    pub fn run(&mut self, rows: &Vec<ItemDisplayRow>) -> (r: Result<(), PageError>)
        requires
            old(self).items@.len() == 0,
            !old(self).has_more,
        ensures
            final(self).options == old(self).options,
            final(self).items_ok(),
            match spec_page(
                rows@.map_values(|x: ItemDisplayRow| x@),
                spec_page_len(old(self).options),
            ) {
                Option::None => r is Err,
                Option::Some((items, more)) => r is Ok && final(self).rows_view() == items
                    && final(self).has_more == more,
            },
    {
        let ghost all = rows@.map_values(|x: ItemDisplayRow| x@);
        let ghost max = spec_page_len(self.options);
        proof {
            assert(all.subrange(0, all.len() as int) =~= all);
            assert(self.rows_view() =~= Seq::<ItemDisplayRowV>::empty());
            if spec_page(all, max) is Some {
                let (its, more) = spec_page(all, max)->Some_0;
                assert(self.rows_view() + its =~= its);
            }
        }
        let mut i: usize = 0;
        while i < rows.len()
            invariant
                i <= rows@.len(),
                all == rows@.map_values(|x: ItemDisplayRow| x@),
                max == spec_page_len(self.options),
                self.options == old(self).options,
                !self.has_more,
                self.items@.len() <= max,
                self.items_ok(),
                spec_page(all, max) == (match spec_page(
                    all.subrange(i as int, all.len() as int),
                    max - self.items@.len(),
                ) {
                    Option::None => Option::<(Seq<ItemDisplayRowV>, bool)>::None,
                    Option::Some((its, more)) => Option::Some(
                        (self.rows_view() + its, more),
                    ),
                }),
            decreases rows@.len() - i,
        {
            let ghost rest = all.subrange(i as int, all.len() as int);
            let ghost budget = max - self.items@.len();
            let ghost prev_rows = self.rows_view();
            proof {
                assert(rest[0] == all[i as int]);
                assert(rest.drop_first() =~= all.subrange(i + 1 as int, all.len() as int));
            }
            let row = rows[i].duplicate();
            assert(row@ == all[i as int]);
            match self.accept(row) {
                Result::Err(e) => {
                    proof {
                        assert(spec_page(rest, budget) is None);
                    }
                    return Err(e);
                },
                Result::Ok(false) => {
                    proof {
                        assert(row_shown(rest[0]) && budget <= 0);
                        assert(spec_page(rest, budget) == Option::Some(
                            (Seq::<ItemDisplayRowV>::empty(), true),
                        ));
                        assert(prev_rows + Seq::<ItemDisplayRowV>::empty() =~= prev_rows);
                        assert(self.rows_view() =~= prev_rows);
                    }
                    return Ok(());
                },
                Result::Ok(true) => {
                    proof {
                        if row_shown(rest[0]) {
                            assert(budget > 0);
                            let ghost prev_len = (self.items@.len() - 1) as int;
                            assert forall|k: int| 0 <= k < self.items@.len() implies page_item_ok(
                                #[trigger] self.items@[k]@,
                            ) by {
                                if k < prev_len {
                                    assert(self.items@[k] == self.items@.subrange(0, prev_len)[k]);
                                } else {
                                    assert(self.items@[k] == self.items@.last());
                                }
                            }
                            assert(self.rows_view() =~= prev_rows.push(rest[0]));
                            if spec_page(rest.drop_first(), budget - 1) is Some {
                                let (its, more) = spec_page(
                                    rest.drop_first(),
                                    budget - 1,
                                )->Some_0;
                                assert(prev_rows + (seq![rest[0]] + its) =~= prev_rows.push(
                                    rest[0],
                                ) + its);
                            }
                        } else {
                            assert(self.rows_view() =~= prev_rows);
                        }
                    }
                    i = i + 1;
                },
            }
        }
        proof {
            assert(all.subrange(i as int, all.len() as int) =~= Seq::<ItemDisplayRowV>::empty());
            assert(spec_page(Seq::<ItemDisplayRowV>::empty(), max - self.items@.len())
                == Option::Some((Seq::<ItemDisplayRowV>::empty(), false)));
            assert(self.rows_view() + Seq::<ItemDisplayRowV>::empty() =~= self.rows_view());
        }
        Ok(())
    }

    /// The message shown when the page is empty: distinguishes an empty
    /// feed from the end of a followed cursor.
    pub fn message(&self) -> (r: Option<PageMessage>)
        ensures
            r == if self.items@.len() == 0 {
                if self.options.before is None {
                    Some(PageMessage::NothingToDisplay)
                } else {
                    Some(PageMessage::NoMoreItems)
                }
            } else {
                Option::<PageMessage>::None
            },
    {
        if self.items.len() == 0 {
            if self.options.before.is_none() {
                Some(PageMessage::NothingToDisplay)
            } else {
                Some(PageMessage::NoMoreItems)
            }
        } else {
            None
        }
    }

    /// The continuation for a full page, when more rows remain: its
    /// `before` cursor is the timestamp of the last item actually
    /// included in the page — not the last row scanned.
    pub fn more_items_link(&self) -> (r: Option<MoreLink>)
        ensures
            r is Some <==> self.has_more && self.items@.len() > 0,
            r matches Some(l) ==> l.before == self.items@.last()@.item.timestamp_ms_utc
                && l.count == self.options.count,
    {
        if !self.has_more {
            return None;
        }
        if self.items.len() == 0 {
            return None;  // cannot happen when the page filled
        }
        let last = &self.items[self.items.len() - 1];
        Some(MoreLink { before: last.item.timestamp_ms_utc, count: self.options.count })
    }
}

/// Whether a byte is ASCII whitespace.
pub open spec fn is_ws(b: u8) -> bool {
    b == 32 || b == 9 || b == 10 || b == 13
}

/// A byte string with leading whitespace removed.
pub open spec fn trim_front(s: Seq<u8>) -> Seq<u8>
    decreases s.len(),
{
    if s.len() == 0 {
        s
    } else if is_ws(s[0]) {
        trim_front(s.drop_first())
    } else {
        s
    }
}

/// A byte string with trailing whitespace removed.
pub open spec fn trim_back(s: Seq<u8>) -> Seq<u8>
    decreases s.len(),
{
    if s.len() == 0 {
        s
    } else if is_ws(s.last()) {
        trim_back(s.drop_last())
    } else {
        s
    }
}

/// A byte string with whitespace removed from both ends.
pub open spec fn spec_trim(s: Seq<u8>) -> Seq<u8> {
    trim_back(trim_front(s))
}

/// Remove ASCII whitespace from both ends of a byte string.
pub fn trim_bytes(s: &[u8]) -> (r: Vec<u8>)
    ensures
        r@ == spec_trim(s@),
{
    let mut lo: usize = 0;
    let n = s.len();
    proof {
        assert(s@.subrange(0, n as int) =~= s@);
    }
    while lo < n && (s[lo] == 32 || s[lo] == 9 || s[lo] == 10 || s[lo] == 13)
        invariant
            lo <= n == s@.len(),
            trim_front(s@) == trim_front(s@.subrange(lo as int, n as int)),
        decreases n - lo,
    {
        proof {
            let cur = s@.subrange(lo as int, n as int);
            assert(cur[0] == s@[lo as int]);
            assert(cur.drop_first() =~= s@.subrange(lo + 1 as int, n as int));
        }
        lo = lo + 1;
    }
    proof {
        let cur = s@.subrange(lo as int, n as int);
        if lo < n {
            assert(cur[0] == s@[lo as int]);
            assert(!is_ws(cur[0]));
            assert(trim_front(s@) == cur);
        } else {
            assert(cur =~= Seq::<u8>::empty());
            assert(trim_front(s@) == cur);
        }
    }
    let mut hi: usize = n;
    while hi > lo && (s[hi - 1] == 32 || s[hi - 1] == 9 || s[hi - 1] == 10 || s[hi - 1] == 13)
        invariant
            lo <= hi <= n == s@.len(),
            trim_front(s@) == s@.subrange(lo as int, n as int),
            trim_back(s@.subrange(lo as int, n as int)) == trim_back(
                s@.subrange(lo as int, hi as int),
            ),
        decreases hi,
    {
        proof {
            let cur = s@.subrange(lo as int, hi as int);
            assert(cur.last() == s@[hi - 1 as int]);
            assert(cur.drop_last() =~= s@.subrange(lo as int, hi - 1 as int));
        }
        hi = hi - 1;
    }
    proof {
        let cur = s@.subrange(lo as int, hi as int);
        if hi > lo {
            assert(cur.last() == s@[hi - 1 as int]);
            assert(!is_ws(cur.last()));
            assert(trim_back(cur) == cur);
        } else {
            assert(cur =~= Seq::<u8>::empty());
            assert(trim_back(cur) == cur);
        }
        assert(spec_trim(s@) == cur);
    }
    let out = crate::ids::copy_bytes(vstd::slice::slice_subrange(s, lo, hi));
    out
}

/// The display name an item is shown under: the author's current display
/// name when it is not blank, else the author's base58 identity.
pub open spec fn spec_display_name(p: IndexPageItemV) -> Seq<u8> {
    let name = match p.row.display_name {
        Option::Some(n) => spec_trim(n),
        Option::None => Seq::empty(),
    };
    if name.len() > 0 {
        name
    } else {
        crate::ids::b58_encode_of(p.row.item.user)
    }
}

impl IndexPageItem {
    /// The decoded item.
    pub fn item(&self) -> (r: &Item)
        ensures
            r == &self.item,
    {
        &self.item
    }

    /// The stored row.
    pub fn row(&self) -> (r: &ItemDisplayRow)
        ensures
            r == &self.row,
    {
        &self.row
    }

    /// The name to show this item under, as UTF-8 bytes: never empty,
    /// since the base58 fallback of a full-length identity is not.
    pub fn display_name(&self) -> (r: Vec<u8>)
        ensures
            r@ == spec_display_name(self@),
            self.row.item.user@.len() > 0 ==> r@.len() > 0,
    {
        if let Option::Some(n) = &self.row.display_name {
            let trimmed = trim_bytes(n.as_slice());
            if trimmed.len() > 0 {
                return trimmed;
            }
        }
        self.row.item.user.to_base58()
    }
}

} // verus!
