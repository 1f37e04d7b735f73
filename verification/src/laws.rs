//! The laws of the library: what holds of ingestion and pagination as a
//! whole, proved from the contracts the modules state.

use vstd::prelude::*;

use crate::ids::sig_valid_of;
use crate::ingest::{
    spec_ingest,
    spec_ingested_row,
    spec_parse_decimal,
    IngestOutcome,
    MAX_ITEM_SIZE,
};
use crate::pagination::{row_decodes, row_shown, spec_page, spec_page_len, Pagination};
use crate::store::{count_user_rows, has_item, ItemDisplayRowV, ItemRowV};
use crate::wire::spec_decode;

verus! {

/// Ingesting a valid signed payload twice yields `created` then
/// `already-exists`, and exactly one row is persisted: the first run
/// accepts and stores the row (wherever ordering places it), and a second
/// run of the same request against the grown store stops at the
/// idempotent existence check without writing anything.
pub proof fn lemma_ingest_idempotent(
    rows: Seq<ItemRowV>,
    known: Seq<Seq<u8>>,
    quota: Option<usize>,
    u: Seq<u8>,
    s: Seq<u8>,
    header: Seq<u8>,
    body: Seq<u8>,
    n: u64,
    k: int,
    now: i64,
)
    requires
        spec_parse_decimal(header) == Some(n),
        n == body.len(),
        body.len() <= MAX_ITEM_SIZE,
        sig_valid_of(u, s, body),
        spec_decode(body) is Some,
        spec_decode(body)->Some_0.valid(),
        !has_item(rows, u, s),
        known.contains(u),
        !(quota matches Some(q) && count_user_rows(rows, u) >= q),
        0 <= k <= rows.len(),
    ensures
        spec_ingest(rows, known, quota, u, s, Some(header), body) == (IngestOutcome::Created {
            bytes_received: body.len() as usize,
        }),
        spec_ingest(
            rows.insert(k, spec_ingested_row(u, s, body, now)),
            known,
            quota,
            u,
            s,
            Some(header),
            body,
        ) == IngestOutcome::AlreadyExists,
        rows.insert(k, spec_ingested_row(u, s, body, now)).len() == rows.len() + 1,
{
    let row = spec_ingested_row(u, s, body, now);
    let rows2 = rows.insert(k, row);
    assert(rows2[k] == row);
    assert(rows2[k].user == u && rows2[k].signature == s);
    assert(has_item(rows2, u, s));
}

/// An ingestion whose declared length exceeds the hard cap ends
/// `too-large` whatever the store holds and whatever body bytes might
/// have followed: the outcome depends on neither, so no body byte is
/// consumed and no backend question is asked. The staged pipeline
/// enforces the same by types — `start_ingest` rejects such a request
/// before any state exists that could ask the backend anything or accept
/// bytes.
pub proof fn lemma_oversize_rejected(
    rows: Seq<ItemRowV>,
    known: Seq<Seq<u8>>,
    quota: Option<usize>,
    u: Seq<u8>,
    s: Seq<u8>,
    header: Seq<u8>,
    body: Seq<u8>,
)
    requires
        spec_parse_decimal(header) is Some,
        spec_parse_decimal(header)->Some_0 > MAX_ITEM_SIZE,
    ensures
        spec_ingest(rows, known, quota, u, s, Some(header), body) == IngestOutcome::TooLarge,
{
}

/// The displayable rows of a stream, in stream order: those that decode
/// and that the default display filter keeps.
pub open spec fn spec_shown(rows: Seq<ItemDisplayRowV>) -> Seq<ItemDisplayRowV>
    decreases rows.len(),
{
    if rows.len() == 0 {
        Seq::empty()
    } else if row_shown(rows[0]) {
        seq![rows[0]] + spec_shown(rows.drop_first())
    } else {
        spec_shown(rows.drop_first())
    }
}

/// Whether every row of a stream still decodes.
pub open spec fn all_rows_decode(rows: Seq<ItemDisplayRowV>) -> bool {
    forall|i: int| 0 <= i < rows.len() ==> row_decodes(#[trigger] rows[i])
}

/// What a page is, in closed form: over a stream free of corrupt rows,
/// paging with capacity `max` succeeds and returns exactly the first
/// `max` displayable rows (fewer when fewer exist), and reports more
/// exactly when a displayable row beyond the boundary exists.
pub proof fn lemma_page_characterization(rows: Seq<ItemDisplayRowV>, max: int)
    requires
        all_rows_decode(rows),
        max >= 0,
    ensures
        spec_page(rows, max) is Some,
        ({
            let (items, more) = spec_page(rows, max)->Some_0;
            let shown = spec_shown(rows);
            let cap: int = if shown.len() <= max {
                shown.len() as int
            } else {
                max
            };
            &&& items == shown.take(cap)
            &&& items.len() <= max
            &&& (more <==> shown.len() > max)
        }),
    decreases rows.len(),
{
    if rows.len() == 0 {
        assert(spec_shown(rows).take(0) =~= Seq::<ItemDisplayRowV>::empty());
    } else {
        let rest = rows.drop_first();
        assert(all_rows_decode(rest)) by {
            assert(forall|i: int| 0 <= i < rest.len() ==> rest[i] == #[trigger] rows[i + 1]);
        }
        let shown = spec_shown(rows);
        if !row_shown(rows[0]) {
            lemma_page_characterization(rest, max);
        } else if max == 0 {
            assert(shown.len() >= 1);
            assert(shown.take(0) =~= Seq::<ItemDisplayRowV>::empty());
        } else {
            lemma_page_characterization(rest, max - 1);
            let (sub_items, sub_more) = spec_page(rest, max - 1)->Some_0;
            let sub_shown = spec_shown(rest);
            let sub_cap: int = if sub_shown.len() <= max - 1 {
                sub_shown.len() as int
            } else {
                max - 1
            };
            let cap: int = if shown.len() <= max {
                shown.len() as int
            } else {
                max
            };
            assert(shown == seq![rows[0]] + sub_shown);
            assert(cap == 1 + sub_cap);
            assert(shown.take(cap) =~= seq![rows[0]] + sub_shown.take(sub_cap));
        }
    }
}

/// The page-size and `has_more` law: for every pagination request over a
/// stream free of corrupt rows, the returned page holds at most the
/// requested (clamped) count of items, and `has_more` is true exactly
/// when at least one displayable row beyond the page boundary existed.
pub proof fn lemma_page_bounds(rows: Seq<ItemDisplayRowV>, options: Pagination)
    requires
        all_rows_decode(rows),
    ensures
        spec_page(rows, spec_page_len(options)) is Some,
        spec_page(rows, spec_page_len(options))->Some_0.0.len() <= spec_page_len(options),
        spec_page(rows, spec_page_len(options))->Some_0.1 <==> spec_shown(rows).len()
            > spec_page_len(options),
{
    lemma_page_characterization(rows, spec_page_len(options));
}

/// Timestamps strictly descend along the stream. The store's delivery
/// order is deterministic — equal timestamps stand most-recently-saved
/// first — but the continuation cursor carries only a timestamp, so
/// rows that share the boundary millisecond and were not returned would
/// fall outside the next page's strict bound. The gapless-paging law is
/// therefore stated for streams whose timestamps are distinct.
pub open spec fn strictly_desc(rows: Seq<ItemDisplayRowV>) -> bool {
    forall|i: int, j: int|
        0 <= i < j < rows.len() ==> (#[trigger] rows[i]).item.timestamp > (
        #[trigger] rows[j]).item.timestamp
}

/// The rows of a stream from strictly before a cursor, in stream order:
/// what querying the same snapshot again with that cursor yields.
pub open spec fn rows_before(rows: Seq<ItemDisplayRowV>, c: i64) -> Seq<ItemDisplayRowV>
    decreases rows.len(),
{
    if rows.len() == 0 {
        Seq::empty()
    } else if rows[0].item.timestamp < c {
        seq![rows[0]] + rows_before(rows.drop_first(), c)
    } else {
        rows_before(rows.drop_first(), c)
    }
}

/// Displayable rows of a bounded stream stay bounded.
proof fn lemma_shown_ts_below(rows: Seq<ItemDisplayRowV>, c: i64)
    requires
        forall|i: int| 0 <= i < rows.len() ==> (#[trigger] rows[i]).item.timestamp < c,
    ensures
        forall|i: int|
            0 <= i < spec_shown(rows).len() ==> (#[trigger] spec_shown(
                rows,
            )[i]).item.timestamp < c,
    decreases rows.len(),
{
    if rows.len() > 0 {
        let rest = rows.drop_first();
        assert(forall|i: int|
            0 <= i < rest.len() ==> (#[trigger] rest[i]).item.timestamp < c) by {
            assert(forall|i: int| 0 <= i < rest.len() ==> rest[i] == #[trigger] rows[i + 1]);
        }
        lemma_shown_ts_below(rest, c);
        if row_shown(rows[0]) {
            assert(forall|i: int|
                0 <= i < spec_shown(rows).len() ==> spec_shown(rows)[i] == (seq![rows[0]]
                    + spec_shown(rest))[i]);
        }
    }
}

/// The display filter keeps strict descent.
proof fn lemma_shown_strictly_desc(rows: Seq<ItemDisplayRowV>)
    requires
        strictly_desc(rows),
    ensures
        strictly_desc(spec_shown(rows)),
    decreases rows.len(),
{
    if rows.len() > 0 {
        let rest = rows.drop_first();
        assert(strictly_desc(rest)) by {
            assert(forall|i: int| 0 <= i < rest.len() ==> rest[i] == #[trigger] rows[i + 1]);
        }
        lemma_shown_strictly_desc(rest);
        if row_shown(rows[0]) {
            assert(forall|i: int|
                0 <= i < rest.len() ==> (#[trigger] rest[i]).item.timestamp
                    < rows[0].item.timestamp) by {
                assert(forall|i: int| 0 <= i < rest.len() ==> rest[i] == #[trigger] rows[i + 1]);
            }
            lemma_shown_ts_below(rest, rows[0].item.timestamp);
            let s = seq![rows[0]] + spec_shown(rest);
            assert(strictly_desc(s)) by {
                assert(forall|i: int|
                    0 <= i < spec_shown(rest).len() ==> s[i + 1] == #[trigger] spec_shown(
                        rest,
                    )[i]);
            }
        }
    }
}

/// A stream wholly before the cursor passes the cursor filter unchanged.
proof fn lemma_before_all(s: Seq<ItemDisplayRowV>, c: i64)
    requires
        forall|i: int| 0 <= i < s.len() ==> (#[trigger] s[i]).item.timestamp < c,
    ensures
        rows_before(s, c) == s,
    decreases s.len(),
{
    if s.len() > 0 {
        let rest = s.drop_first();
        assert(forall|i: int|
            0 <= i < rest.len() ==> (#[trigger] rest[i]).item.timestamp < c) by {
            assert(forall|i: int| 0 <= i < rest.len() ==> rest[i] == #[trigger] s[i + 1]);
        }
        lemma_before_all(rest, c);
        assert(rows_before(s, c) =~= s);
    }
}

/// In a strictly descending stream, the rows strictly before the `k`-th
/// row's timestamp are exactly the rows after position `k`.
proof fn lemma_before_skip(s: Seq<ItemDisplayRowV>, k: int)
    requires
        strictly_desc(s),
        1 <= k <= s.len(),
    ensures
        rows_before(s, s[k - 1].item.timestamp) == s.skip(k),
    decreases s.len(),
{
    let c = s[k - 1].item.timestamp;
    let rest = s.drop_first();
    assert(strictly_desc(rest)) by {
        assert(forall|i: int| 0 <= i < rest.len() ==> rest[i] == #[trigger] s[i + 1]);
    }
    if k == 1 {
        assert(!(s[0].item.timestamp < c));
        assert(forall|i: int|
            0 <= i < rest.len() ==> (#[trigger] rest[i]).item.timestamp < c) by {
            assert(forall|i: int| 0 <= i < rest.len() ==> rest[i] == #[trigger] s[i + 1]);
        }
        lemma_before_all(rest, c);
        assert(rest =~= s.skip(1));
    } else {
        assert(s[0].item.timestamp > c);
        assert(rest[k - 2] == s[k - 1]);
        lemma_before_skip(rest, k - 1);
        assert(rest.skip(k - 1) =~= s.skip(k));
    }
}

/// The display filter and the cursor filter commute.
proof fn lemma_shown_before_commute(rows: Seq<ItemDisplayRowV>, c: i64)
    ensures
        spec_shown(rows_before(rows, c)) == rows_before(spec_shown(rows), c),
    decreases rows.len(),
{
    if rows.len() > 0 {
        let h = rows[0];
        let rest = rows.drop_first();
        lemma_shown_before_commute(rest, c);
        if h.item.timestamp < c && row_shown(h) {
            let x = seq![h] + rows_before(rest, c);
            assert(x[0] == h);
            assert(x.drop_first() =~= rows_before(rest, c));
            let y = seq![h] + spec_shown(rest);
            assert(y[0] == h);
            assert(y.drop_first() =~= spec_shown(rest));
            assert(spec_shown(x) =~= seq![h] + spec_shown(rows_before(rest, c)));
            assert(rows_before(y, c) =~= seq![h] + rows_before(spec_shown(rest), c));
        } else if h.item.timestamp < c {
            let x = seq![h] + rows_before(rest, c);
            assert(x[0] == h);
            assert(x.drop_first() =~= rows_before(rest, c));
            assert(spec_shown(x) =~= spec_shown(rows_before(rest, c)));
        } else if row_shown(h) {
            let y = seq![h] + spec_shown(rest);
            assert(y[0] == h);
            assert(y.drop_first() =~= spec_shown(rest));
            assert(rows_before(y, c) =~= rows_before(spec_shown(rest), c));
        }
    }
}

/// Paging is gapless and non-duplicating. For a fixed snapshot of rows,
/// newest first with strictly descending timestamps and free of corrupt
/// rows: a page that fills holds exactly the first `max` displayable
/// rows, and querying the same snapshot again from the page's cursor —
/// the timestamp of the last item actually included — yields a stream
/// whose displayable rows are exactly the remaining ones. Concatenating
/// pages by repeatedly following the cursor therefore reproduces the
/// whole displayable sequence, newest first, with no repeats and no
/// omissions.
pub proof fn lemma_paging_gapless(rows: Seq<ItemDisplayRowV>, max: int)
    requires
        strictly_desc(rows),
        all_rows_decode(rows),
        max >= 1,
        spec_page(rows, max) is Some,
        spec_page(rows, max)->Some_0.1,
    ensures
        ({
            let (items, more) = spec_page(rows, max)->Some_0;
            let cursor = items.last().item.timestamp;
            &&& items == spec_shown(rows).take(max)
            &&& items.len() == max
            &&& spec_shown(rows_before(rows, cursor)) == spec_shown(rows).skip(max)
        }),
{
    lemma_page_characterization(rows, max);
    let (items, more) = spec_page(rows, max)->Some_0;
    let shown = spec_shown(rows);
    assert(shown.len() > max);
    assert(items == shown.take(max));
    assert(items.len() == max);
    let cursor = items.last().item.timestamp;
    assert(items.last() == shown[max - 1]);
    lemma_shown_strictly_desc(rows);
    lemma_before_skip(shown, max);
    lemma_shown_before_commute(rows, cursor);
}

} // verus!
