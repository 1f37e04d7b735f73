//! Durable rows and the in-memory store.
//!
//! An `ItemRow` is the validated unit the ingestion pipeline persists:
//! identity, signature, timestamps and the exact signed bytes. The
//! `Store` realises the storage contract the pipeline and the pagination
//! engine depend on: point lookups, existence and policy checks, and
//! range queries that yield rows in descending timestamp order.

use vstd::prelude::*;

use crate::ids::{copy_bytes, Signature, UserID};
use crate::item::{ItemType, ItemTypeV};
use crate::wire::{decode_item, spec_decode};

verus! {

/// A signed 64-bit count of milliseconds since the Unix epoch; the sort
/// key for feeds and the pagination cursor value.
#[derive(Clone, Copy, PartialEq, Eq, Structural, Debug)]
pub struct Timestamp {
    pub unix_utc_ms: i64,
}

/// The durable, validated unit: created exactly once by the ingestion
/// pipeline after every check passes, immutable thereafter. `item_bytes`
/// is the exact payload that was signature-verified; it is never
/// re-serialised.
pub struct ItemRow {
    /// The signer, who owns this row.
    pub user: UserID,
    /// The signature over exactly `item_bytes`.
    pub signature: Signature,
    /// The item's own declared timestamp.
    pub timestamp: Timestamp,
    /// When this server received the row.
    pub received: Timestamp,
    /// The stored bytes: the source of truth for later re-verification
    /// or redistribution.
    pub item_bytes: Vec<u8>,
}

/// Spec-level mirror of `ItemRow`.
#[verifier::ext_equal]
pub struct ItemRowV {
    pub user: Seq<u8>,
    pub signature: Seq<u8>,
    pub timestamp: i64,
    pub received: i64,
    pub item_bytes: Seq<u8>,
}

impl View for ItemRow {
    type V = ItemRowV;

    open spec fn view(&self) -> ItemRowV {
        ItemRowV {
            user: self.user@,
            signature: self.signature@,
            timestamp: self.timestamp.unix_utc_ms,
            received: self.received.unix_utc_ms,
            item_bytes: self.item_bytes@,
        }
    }
}

impl ItemRow {
    /// A stored row holds a full-length identity and signature.
    pub open spec fn wf(&self) -> bool {
        self.user.wf() && self.signature.wf()
    }

    /// An independent copy of this row.
    pub fn duplicate(&self) -> (r: ItemRow)
        ensures
            r@ == self@,
            r.wf() == self.wf(),
    {
        ItemRow {
            user: self.user.duplicate(),
            signature: self.signature.duplicate(),
            timestamp: self.timestamp,
            received: self.received,
            item_bytes: copy_bytes(self.item_bytes.as_slice()),
        }
    }
}

/// A read-side composite: a stored row annotated with the author's
/// current display name for rendering. Never persisted.
pub struct ItemDisplayRow {
    pub item: ItemRow,
    /// The author's current display name (UTF-8 bytes), when they have
    /// a profile that declares one.
    pub display_name: Option<Vec<u8>>,
}

/// Spec-level mirror of `ItemDisplayRow`.
#[verifier::ext_equal]
pub struct ItemDisplayRowV {
    pub item: ItemRowV,
    pub display_name: Option<Seq<u8>>,
}

impl View for ItemDisplayRow {
    type V = ItemDisplayRowV;

    open spec fn view(&self) -> ItemDisplayRowV {
        ItemDisplayRowV {
            item: self.item@,
            display_name: match self.display_name {
                Option::Some(n) => Some(n@),
                Option::None => None,
            },
        }
    }
}

impl ItemDisplayRow {
    /// An independent copy of this row.
    pub fn duplicate(&self) -> (r: ItemDisplayRow)
        ensures
            r@ == self@,
    {
        ItemDisplayRow {
            item: self.item.duplicate(),
            display_name: match &self.display_name {
                Option::Some(n) => Some(copy_bytes(n.as_slice())),
                Option::None => None,
            },
        }
    }
}

/// Whether some stored row carries this `(user, signature)` pair.
pub open spec fn has_item(rows: Seq<ItemRowV>, u: Seq<u8>, s: Seq<u8>) -> bool {
    exists|i: int| 0 <= i < rows.len() && rows[i].user == u && #[trigger] rows[i].signature == s
}

/// The row stored under a `(user, signature)` pair: the first match in
/// stored order — which the store's uniqueness invariant makes the only
/// one.
pub open spec fn spec_find_item(rows: Seq<ItemRowV>, u: Seq<u8>, s: Seq<u8>) -> Option<ItemRowV>
    decreases rows.len(),
{
    if rows.len() == 0 {
        None
    } else if rows[0].user == u && rows[0].signature == s {
        Some(rows[0])
    } else {
        spec_find_item(rows.drop_first(), u, s)
    }
}

/// A pair is found exactly when some row carries it, and what is found
/// carries it.
pub proof fn lemma_find_item_has(rows: Seq<ItemRowV>, u: Seq<u8>, s: Seq<u8>)
    ensures
        spec_find_item(rows, u, s) is Some <==> has_item(rows, u, s),
        spec_find_item(rows, u, s) matches Some(rv) ==> rows.contains(rv) && rv.user == u
            && rv.signature == s,
    decreases rows.len(),
{
    if rows.len() > 0 {
        let rest = rows.drop_first();
        lemma_find_item_has(rest, u, s);
        if rows[0].user == u && rows[0].signature == s {
            assert(has_item(rows, u, s));
        } else {
            if has_item(rest, u, s) {
                let i = choose|i: int|
                    0 <= i < rest.len() && rest[i].user == u && #[trigger] rest[i].signature == s;
                assert(rows[i + 1].signature == s);
                assert(has_item(rows, u, s));
            }
            if has_item(rows, u, s) {
                let i = choose|i: int|
                    0 <= i < rows.len() && rows[i].user == u && #[trigger] rows[i].signature == s;
                assert(i != 0);
                assert(rest[i - 1].signature == s);
                assert(has_item(rest, u, s));
            }
            if spec_find_item(rest, u, s) is Some {
                let rv = spec_find_item(rest, u, s)->Some_0;
                let i = choose|i: int| 0 <= i < rest.len() && rest[i] == rv;
                assert(rows[i + 1] == rv);
                assert(rows.contains(rv));
            }
        }
    }
}

/// How many stored rows this identity owns.
pub open spec fn count_user_rows(rows: Seq<ItemRowV>, u: Seq<u8>) -> int
    decreases rows.len(),
{
    if rows.len() == 0 {
        0
    } else {
        (if rows[0].user == u {
            1int
        } else {
            0int
        }) + count_user_rows(rows.drop_first(), u)
    }
}

/// Rows stand in descending timestamp order.
pub open spec fn rows_sorted(rows: Seq<ItemRowV>) -> bool {
    forall|i: int, j: int|
        0 <= i <= j < rows.len() ==> #[trigger] rows[i].timestamp >= #[trigger] rows[j].timestamp
}

/// No two rows share a `(user, signature)` pair: the pair addresses
/// content, so it determines the row.
pub open spec fn rows_unique(rows: Seq<ItemRowV>) -> bool {
    forall|i: int, j: int|
        0 <= i < j < rows.len() ==> !((#[trigger] rows[i]).user == (#[trigger] rows[j]).user
            && rows[i].signature == rows[j].signature)
}

/// Every row holds a full-length identity and signature.
pub open spec fn rows_wf(rows: Seq<ItemRowV>) -> bool {
    forall|i: int|
        0 <= i < rows.len() ==> (#[trigger] rows[i]).user.len() == 32 && rows[i].signature.len()
            == 64
}

/// Why the store denied a write on policy grounds.
#[derive(Clone, Copy, PartialEq, Eq, Structural, Debug)]
pub enum DenyReason {
    /// The identity already stores as many items as its quota allows.
    QuotaExceeded,
}

/// The in-memory store: rows in descending timestamp order, the
/// identities allowed to post here, and an optional per-user item quota.
pub struct Store {
    rows: Vec<ItemRow>,
    known: Vec<UserID>,
    quota_items: Option<usize>,
}

impl Store {
    /// The stored rows, newest first.
    pub closed spec fn rows_view(&self) -> Seq<ItemRowV> {
        self.rows@.map_values(|r: ItemRow| r@)
    }

    /// The known identities.
    pub closed spec fn known_view(&self) -> Seq<Seq<u8>> {
        self.known@.map_values(|u: UserID| u@)
    }

    /// The per-user item quota, when one is set.
    pub closed spec fn quota_view(&self) -> Option<usize> {
        self.quota_items
    }

    /// The store's invariant: rows ordered newest first, one row per
    /// `(user, signature)` pair, every row well-formed.
    pub open spec fn wf(&self) -> bool {
        rows_sorted(self.rows_view()) && rows_unique(self.rows_view()) && rows_wf(
            self.rows_view(),
        )
    }

    /// An empty store with the given per-user item quota.
    pub fn new(quota_items: Option<usize>) -> (r: Store)
        ensures
            r.wf(),
            r.rows_view() == Seq::<ItemRowV>::empty(),
            r.known_view() == Seq::<Seq<u8>>::empty(),
            r.quota_view() == quota_items,
    {
        let r = Store { rows: Vec::new(), known: Vec::new(), quota_items };
        proof {
            assert(r.rows_view() =~= Seq::<ItemRowV>::empty());
            assert(r.known_view() =~= Seq::<Seq<u8>>::empty());
        }
        r
    }

    /// How many rows the store holds.
    pub fn row_count(&self) -> (r: usize)
        ensures
            r == self.rows_view().len(),
    {
        self.rows.len()
    }

    /// Allow an identity to post here.
    pub fn add_known(&mut self, user: UserID)
        requires
            old(self).wf(),
        ensures
            final(self).wf(),
            final(self).known_view() == old(self).known_view().push(user@),
            final(self).rows_view() == old(self).rows_view(),
            final(self).quota_view() == old(self).quota_view(),
    {
        self.known.push(user);
        proof {
            assert(self.known_view() =~= old(self).known_view().push(user@));
            assert(self.rows_view() =~= old(self).rows_view());
        }
    }

    /// Whether this identity is allowed to post here.
    pub fn user_known(&self, user: &UserID) -> (r: bool)
        ensures
            r == self.known_view().contains(user@),
    {
        let mut i: usize = 0;
        while i < self.known.len()
            invariant
                i <= self.known@.len(),
                forall|j: int| 0 <= j < i ==> self.known_view()[j] != user@,
            decreases self.known@.len() - i,
        {
            if self.known[i].same_as(user) {
                assert(self.known_view()[i as int] == user@);
                return true;
            }
            i = i + 1;
        }
        assert(forall|j: int| 0 <= j < self.known_view().len() ==> self.known_view()[j] != user@);
        false
    }

    /// Whether a row with this exact `(user, signature)` already exists.
    pub fn user_item_exists(&self, user: &UserID, signature: &Signature) -> (r: bool)
        ensures
            r == has_item(self.rows_view(), user@, signature@),
    {
        let mut i: usize = 0;
        while i < self.rows.len()
            invariant
                i <= self.rows@.len(),
                forall|j: int|
                    0 <= j < i ==> !(self.rows_view()[j].user == user@
                        && #[trigger] self.rows_view()[j].signature == signature@),
            decreases self.rows@.len() - i,
        {
            if self.rows[i].user.same_as(user) && self.rows[i].signature.same_as(signature) {
                assert(self.rows_view()[i as int].signature == signature@);
                return true;
            }
            i = i + 1;
        }
        false
    }

    /// The row stored under this `(user, signature)`, if any; the pair
    /// determines the row, so the returned copy is that row exactly.
    pub fn user_item(&self, user: &UserID, signature: &Signature) -> (r: Option<ItemRow>)
        requires
            self.wf(),
        ensures
            r is Some <==> has_item(self.rows_view(), user@, signature@),
            r matches Some(row) ==> spec_find_item(self.rows_view(), user@, signature@) == Some(
                row@,
            ) && self.rows_view().contains(row@) && row@.user == user@ && row@.signature
                == signature@ && row.wf(),
    {
        let ghost all = self.rows_view();
        proof {
            assert(all.subrange(0, all.len() as int) =~= all);
            lemma_find_item_has(all, user@, signature@);
        }
        let mut i: usize = 0;
        while i < self.rows.len()
            invariant
                i <= self.rows@.len(),
                all == self.rows_view(),
                self.wf(),
                spec_find_item(all, user@, signature@) == spec_find_item(
                    all.subrange(i as int, all.len() as int),
                    user@,
                    signature@,
                ),
                forall|j: int|
                    0 <= j < i ==> !(self.rows_view()[j].user == user@
                        && #[trigger] self.rows_view()[j].signature == signature@),
            decreases self.rows@.len() - i,
        {
            let ghost rest = all.subrange(i as int, all.len() as int);
            proof {
                assert(rest[0] == all[i as int]);
                assert(rest.drop_first() =~= all.subrange(i + 1 as int, all.len() as int));
            }
            if self.rows[i].user.same_as(user) && self.rows[i].signature.same_as(signature) {
                let row = self.rows[i].duplicate();
                assert(self.rows_view()[i as int].signature == signature@);
                assert(self.rows_view().contains(row@));
                assert(spec_find_item(all, user@, signature@) == Some(row@));
                proof {
                    lemma_find_item_has(all, user@, signature@);
                }
                return Some(row);
            }
            i = i + 1;
        }
        proof {
            assert(all.subrange(i as int, all.len() as int) =~= Seq::<ItemRowV>::empty());
            lemma_find_item_has(all, user@, signature@);
        }
        None
    }

    /// The policy check before a write: when a per-user quota is set and
    /// the identity already stores that many items, the write is denied.
    pub fn quota_check_item(&self, user: &UserID) -> (r: Option<DenyReason>)
        ensures
            r is Some <==> (self.quota_view() matches Some(q) && count_user_rows(
                self.rows_view(),
                user@,
            ) >= q),
            r matches Some(d) ==> d == DenyReason::QuotaExceeded,
    {
        let q = match self.quota_items {
            Option::None => {
                return None;
            },
            Option::Some(q) => q,
        };
        let ghost all = self.rows_view();
        proof {
            assert(all.subrange(0, all.len() as int) =~= all);
        }
        let mut count: usize = 0;
        let mut i: usize = 0;
        while i < self.rows.len()
            invariant
                i <= self.rows@.len(),
                all == self.rows_view(),
                count <= i,
                count_user_rows(all, user@) == count + count_user_rows(
                    all.subrange(i as int, all.len() as int),
                    user@,
                ),
            decreases self.rows@.len() - i,
        {
            let ghost rest = all.subrange(i as int, all.len() as int);
            proof {
                assert(rest[0] == all[i as int]);
                assert(rest.drop_first() =~= all.subrange(i + 1 as int, all.len() as int));
            }
            if self.rows[i].user.same_as(user) {
                count = count + 1;
            }
            i = i + 1;
        }
        proof {
            assert(all.subrange(i as int, all.len() as int) =~= Seq::<ItemRowV>::empty());
        }
        if count >= q {
            Some(DenyReason::QuotaExceeded)
        } else {
            None
        }
    }

    /// Persist one validated row, keeping rows ordered newest first.
    /// Among rows with equal timestamps the newly saved one stands first.
    pub fn save_user_item(&mut self, row: ItemRow)
        requires
            old(self).wf(),
            row.wf(),
            !has_item(old(self).rows_view(), row@.user, row@.signature),
        ensures
            final(self).wf(),
            final(self).known_view() == old(self).known_view(),
            final(self).quota_view() == old(self).quota_view(),
            exists|k: int|
                0 <= k <= old(self).rows_view().len() && final(self).rows_view() == old(
                    self,
                ).rows_view().insert(k, row@),
            final(self).rows_view().len() == old(self).rows_view().len() + 1,
            has_item(final(self).rows_view(), row@.user, row@.signature),
    {
        let ghost prev = self.rows_view();
        let mut idx: usize = 0;
        loop
            invariant
                idx <= self.rows@.len(),
                *self == *old(self),
                prev == self.rows_view(),
                forall|j: int| 0 <= j < idx ==> prev[j].timestamp > row@.timestamp,
            ensures
                idx <= prev.len(),
                forall|j: int| 0 <= j < idx ==> prev[j].timestamp > row@.timestamp,
                idx < prev.len() ==> prev[idx as int].timestamp <= row@.timestamp,
                *self == *old(self),
            decreases self.rows@.len() - idx,
        {
            if idx >= self.rows.len() {
                break ;
            }
            if self.rows[idx].timestamp.unix_utc_ms <= row.timestamp.unix_utc_ms {
                break ;
            }
            idx = idx + 1;
        }
        let ghost rv = row@;
        self.rows.insert(idx, row);
        proof {
            assert(self.rows_view() =~= prev.insert(idx as int, rv));
            let now = self.rows_view();
            assert(rows_sorted(now)) by {
                assert forall|i: int, j: int| 0 <= i <= j < now.len() implies now[i].timestamp
                    >= now[j].timestamp by {
                    if i < idx && j < idx {
                    } else if i >= idx + 1 && j >= idx + 1 {
                        assert(now[i] == prev[i - 1] && now[j] == prev[j - 1]);
                    } else if i < idx && j == idx {
                        assert(now[i] == prev[i] && prev[i].timestamp > rv.timestamp);
                    } else if i == idx && j > idx {
                        assert(now[j] == prev[j - 1]);
                        if idx < prev.len() {
                            assert(prev[idx as int].timestamp <= rv.timestamp);
                            assert(prev[idx as int].timestamp >= prev[j - 1].timestamp);
                        }
                    } else if i < idx && j > idx {
                        assert(now[i] == prev[i] && now[j] == prev[j - 1]);
                        assert(prev[i].timestamp > rv.timestamp);
                        if idx < prev.len() {
                            assert(prev[idx as int].timestamp >= prev[j - 1].timestamp);
                        }
                    }
                }
            };
            assert(rows_unique(now)) by {
                assert forall|i: int, j: int| 0 <= i < j < now.len() implies !(now[i].user
                    == now[j].user && now[i].signature == now[j].signature) by {
                    if i == idx {
                        assert(now[j] == prev[j - 1]);
                        assert(!has_item(prev, rv.user, rv.signature));
                        assert(!(prev[j - 1].user == rv.user && prev[j - 1].signature
                            == rv.signature));
                    } else if j == idx {
                        assert(now[i] == prev[i]);
                        assert(!(prev[i].user == rv.user && prev[i].signature == rv.signature));
                    } else {
                        let pi = if i < idx {
                            i
                        } else {
                            i - 1
                        };
                        let pj = if j < idx {
                            j
                        } else {
                            j - 1
                        };
                        assert(now[i] == prev[pi] && now[j] == prev[pj]);
                        assert(0 <= pi < pj < prev.len());
                    }
                }
            };
            assert(rows_wf(now)) by {
                assert forall|i: int| 0 <= i < now.len() implies now[i].user.len() == 32
                    && now[i].signature.len() == 64 by {
                    if i < idx {
                        assert(now[i] == prev[i]);
                    } else if i > idx {
                        assert(now[i] == prev[i - 1]);
                    }
                }
            };
            assert(now[idx as int] == rv);
            assert(has_item(now, rv.user, rv.signature));
            assert(self.known_view() =~= old(self).known_view());
        }
    }
}

/// Whether a row is a profile row of `u`: owned by `u` and decoding to a
/// profile update.
pub open spec fn is_profile_row(r: ItemRowV, u: Seq<u8>) -> bool {
    &&& r.user == u
    &&& spec_decode(r.item_bytes) is Some
    &&& spec_decode(r.item_bytes)->Some_0.item_type is Profile
}

/// The newest profile row of `u` among `rows` (rows stand newest first).
pub open spec fn spec_first_profile(rows: Seq<ItemRowV>, u: Seq<u8>) -> Option<ItemRowV>
    decreases rows.len(),
{
    if rows.len() == 0 {
        None
    } else if is_profile_row(rows[0], u) {
        Some(rows[0])
    } else {
        spec_first_profile(rows.drop_first(), u)
    }
}

/// What the newest profile row is, is a profile row.
pub proof fn lemma_first_profile_is_profile(rows: Seq<ItemRowV>, u: Seq<u8>)
    requires
        spec_first_profile(rows, u) is Some,
    ensures
        is_profile_row(spec_first_profile(rows, u)->Some_0, u),
        rows.contains(spec_first_profile(rows, u)->Some_0),
    decreases rows.len(),
{
    if rows.len() > 0 && !is_profile_row(rows[0], u) {
        lemma_first_profile_is_profile(rows.drop_first(), u);
        let rv = spec_first_profile(rows, u)->Some_0;
        let i = choose|i: int| 0 <= i < rows.drop_first().len() && rows.drop_first()[i] == rv;
        assert(rows[i + 1] == rv);
    }
}

/// The display name the newest profile of `u` declares, if `u` has a
/// profile here.
pub open spec fn spec_display_name_of(rows: Seq<ItemRowV>, u: Seq<u8>) -> Option<Seq<u8>> {
    match spec_first_profile(rows, u) {
        Option::None => None,
        Option::Some(r) => match spec_decode(r.item_bytes)->Some_0.item_type {
            ItemTypeV::Profile { display_name, .. } => Some(display_name),
            _ => None,
        },
    }
}

/// The identities the newest profile of `u` follows, in profile order.
pub open spec fn spec_followed(rows: Seq<ItemRowV>, u: Seq<u8>) -> Seq<Seq<u8>> {
    match spec_first_profile(rows, u) {
        Option::None => Seq::empty(),
        Option::Some(r) => match spec_decode(r.item_bytes)->Some_0.item_type {
            ItemTypeV::Profile { follows, .. } => follows.map_values(|f: crate::item::FollowV| f.user),
            _ => Seq::empty(),
        },
    }
}

/// Which rows a range query is after.
pub enum Scope {
    /// Every row: the homepage.
    All,
    /// Rows one identity owns: their timeline.
    ByUser(UserID),
    /// Rows owned by any of these identities: a feed.
    ByAuthors(Vec<UserID>),
}

/// Spec-level mirror of `Scope`.
pub enum ScopeV {
    All,
    ByUser(Seq<u8>),
    ByAuthors(Seq<Seq<u8>>),
}

impl View for Scope {
    type V = ScopeV;

    open spec fn view(&self) -> ScopeV {
        match self {
            Scope::All => ScopeV::All,
            Scope::ByUser(u) => ScopeV::ByUser(u@),
            Scope::ByAuthors(a) => ScopeV::ByAuthors(a@.map_values(|x: UserID| x@)),
        }
    }
}

/// Whether a scope keeps a row.
pub open spec fn scope_keeps(s: ScopeV, r: ItemRowV) -> bool {
    match s {
        ScopeV::All => true,
        ScopeV::ByUser(u) => r.user == u,
        ScopeV::ByAuthors(a) => a.contains(r.user),
    }
}

/// The rows a range query returns: those strictly before the bound that
/// the scope keeps, in stored (descending timestamp) order.
pub open spec fn spec_select(rows: Seq<ItemRowV>, before: i64, s: ScopeV) -> Seq<ItemRowV>
    decreases rows.len(),
{
    if rows.len() == 0 {
        Seq::empty()
    } else {
        let rest = spec_select(rows.drop_first(), before, s);
        if rows[0].timestamp < before && scope_keeps(s, rows[0]) {
            seq![rows[0]] + rest
        } else {
            rest
        }
    }
}

/// Rows annotated for display: each carries the display name its author's
/// newest profile declares.
pub open spec fn spec_annotated(rows: Seq<ItemRowV>, selected: Seq<ItemRowV>) -> Seq<
    ItemDisplayRowV,
> {
    selected.map_values(
        |r: ItemRowV| ItemDisplayRowV { item: r, display_name: spec_display_name_of(rows, r.user) },
    )
}

/// Rows carried without a display name: the one page that shows a user
/// their own items does not repeat their name on every row.
pub open spec fn spec_plain(selected: Seq<ItemRowV>) -> Seq<ItemDisplayRowV> {
    selected.map_values(|r: ItemRowV| ItemDisplayRowV { item: r, display_name: None })
}

impl Store {
    /// The newest profile row of this identity, if they have one.
    pub fn user_profile(&self, user: &UserID) -> (r: Option<ItemRow>)
        requires
            self.wf(),
        ensures
            match spec_first_profile(self.rows_view(), user@) {
                Option::None => r is None,
                Option::Some(rv) => r matches Some(row) && row@ == rv && row.wf(),
            },
    {
        let ghost all = self.rows_view();
        proof {
            assert(all.subrange(0, all.len() as int) =~= all);
        }
        let mut i: usize = 0;
        while i < self.rows.len()
            invariant
                i <= self.rows@.len(),
                all == self.rows_view(),
                self.wf(),
                spec_first_profile(all, user@) == spec_first_profile(
                    all.subrange(i as int, all.len() as int),
                    user@,
                ),
            decreases self.rows@.len() - i,
        {
            let ghost rest = all.subrange(i as int, all.len() as int);
            proof {
                assert(rest[0] == all[i as int]);
                assert(rest.drop_first() =~= all.subrange(i + 1 as int, all.len() as int));
            }
            let is_hit = if self.rows[i].user.same_as(user) {
                match decode_item(self.rows[i].item_bytes.as_slice()) {
                    Option::Some(item) => match &item.item_type {
                        ItemType::Profile { .. } => true,
                        _ => false,
                    },
                    Option::None => false,
                }
            } else {
                false
            };
            if is_hit {
                assert(is_profile_row(rest[0], user@));
                let row = self.rows[i].duplicate();
                return Some(row);
            }
            assert(!is_profile_row(rest[0], user@));
            i = i + 1;
        }
        proof {
            assert(all.subrange(i as int, all.len() as int) =~= Seq::<ItemRowV>::empty());
        }
        None
    }

    /// The display name this identity's newest profile declares, if any.
    pub fn display_name_of(&self, user: &UserID) -> (r: Option<Vec<u8>>)
        requires
            self.wf(),
        ensures
            r is Some <==> spec_display_name_of(self.rows_view(), user@) is Some,
            r matches Some(n) ==> spec_display_name_of(self.rows_view(), user@) == Some(n@),
    {
        let row = match self.user_profile(user) {
            Option::None => {
                return None;
            },
            Option::Some(row) => row,
        };
        proof {
            lemma_first_profile_is_profile(self.rows_view(), user@);
        }
        match decode_item(row.item_bytes.as_slice()) {
            Option::Some(item) => match item.item_type {
                ItemType::Profile { display_name, .. } => Some(display_name),
                _ => {
                    proof {
                        assert(false);
                    }
                    None
                },
            },
            Option::None => {
                proof {
                    assert(false);
                }
                None
            },
        }
    }

    /// The identities this identity's newest profile follows.
    pub fn followed_users(&self, user: &UserID) -> (r: Vec<UserID>)
        requires
            self.wf(),
        ensures
            r@.map_values(|x: UserID| x@) == spec_followed(self.rows_view(), user@),
    {
        let row = match self.user_profile(user) {
            Option::None => {
                proof {
                    assert(Seq::<UserID>::empty().map_values(|x: UserID| x@)
                        =~= spec_followed(self.rows_view(), user@));
                }
                return Vec::new();
            },
            Option::Some(row) => row,
        };
        proof {
            lemma_first_profile_is_profile(self.rows_view(), user@);
        }
        match decode_item(row.item_bytes.as_slice()) {
            Option::Some(item) => match item.item_type {
                ItemType::Profile { follows, .. } => {
                    let ghost fvs = follows@.map_values(|f: crate::item::Follow| f@);
                    let mut out: Vec<UserID> = Vec::new();
                    let mut i: usize = 0;
                    while i < follows.len()
                        invariant
                            i <= follows@.len(),
                            fvs == follows@.map_values(|f: crate::item::Follow| f@),
                            out@.map_values(|x: UserID| x@) =~= fvs.map_values(
                                |f: crate::item::FollowV| f.user,
                            ).subrange(0, i as int),
                        decreases follows@.len() - i,
                    {
                        let ghost prev = out@.map_values(|x: UserID| x@);
                        out.push(follows[i].user.duplicate());
                        proof {
                            let target = fvs.map_values(|f: crate::item::FollowV| f.user);
                            assert(fvs[i as int] == follows@[i as int]@);
                            assert(target[i as int] == follows@[i as int]@.user);
                            assert(out@.map_values(|x: UserID| x@) =~= prev.push(
                                follows@[i as int]@.user,
                            ));
                            assert(out@.map_values(|x: UserID| x@) =~= target.subrange(
                                0,
                                i + 1 as int,
                            ));
                        }
                        i = i + 1;
                    }
                    proof {
                        let target = fvs.map_values(|f: crate::item::FollowV| f.user);
                        assert(target.subrange(0, target.len() as int) =~= target);
                    }
                    out
                },
                _ => {
                    proof {
                        assert(false);
                    }
                    Vec::new()
                },
            },
            Option::None => {
                proof {
                    assert(false);
                }
                Vec::new()
            },
        }
    }

    /// Whether a scope keeps a row.
    fn scope_keeps_exec(scope: &Scope, row: &ItemRow) -> (b: bool)
        ensures
            b == scope_keeps(scope@, row@),
    {
        match scope {
            Scope::All => true,
            Scope::ByUser(u) => row.user.same_as(u),
            Scope::ByAuthors(authors) => {
                let ghost av = scope@->ByAuthors_0;
                proof {
                    assert(scope@ == ScopeV::ByAuthors(av));
                    assert(av.len() == authors@.len());
                    assert(forall|j: int| 0 <= j < av.len() ==> av[j] == (#[trigger] authors@[j])@);
                }
                let mut i: usize = 0;
                while i < authors.len()
                    invariant
                        i <= authors@.len(),
                        scope@ == ScopeV::ByAuthors(av),
                        av.len() == authors@.len(),
                        forall|j: int| 0 <= j < av.len() ==> av[j] == (#[trigger] authors@[j])@,
                        forall|j: int| 0 <= j < i ==> av[j] != row@.user,
                    decreases authors@.len() - i,
                {
                    if authors[i].same_as(&row.user) {
                        assert(av[i as int] == row@.user);
                        assert(av.contains(row@.user));
                        return true;
                    }
                    i = i + 1;
                }
                assert(forall|j: int| 0 <= j < av.len() ==> av[j] != row@.user);
                assert(!av.contains(row@.user));
                false
            },
        }
    }

    /// The push-style range query behind every feed: the rows strictly
    /// before `before` that the scope keeps, newest first.
    pub fn select_rows(&self, before: Timestamp, scope: &Scope) -> (r: Vec<ItemRow>)
        requires
            self.wf(),
        ensures
            r@.map_values(|x: ItemRow| x@) == spec_select(
                self.rows_view(),
                before.unix_utc_ms,
                scope@,
            ),
    {
        let ghost all = self.rows_view();
        let ghost sv = scope@;
        let ghost b = before.unix_utc_ms;
        proof {
            assert(all.subrange(0, all.len() as int) =~= all);
            assert(Seq::<ItemRow>::empty().map_values(|x: ItemRow| x@) =~= Seq::<
                ItemRowV,
            >::empty());
            if spec_select(all, b, sv).len() >= 0 {
                assert(Seq::<ItemRowV>::empty() + spec_select(all, b, sv) =~= spec_select(
                    all,
                    b,
                    sv,
                ));
            }
        }
        let mut out: Vec<ItemRow> = Vec::new();
        let mut i: usize = 0;
        while i < self.rows.len()
            invariant
                i <= self.rows@.len(),
                all == self.rows_view(),
                sv == scope@,
                b == before.unix_utc_ms,
                self.wf(),
                spec_select(all, b, sv) == out@.map_values(|x: ItemRow| x@) + spec_select(
                    all.subrange(i as int, all.len() as int),
                    b,
                    sv,
                ),
            decreases self.rows@.len() - i,
        {
            let ghost rest = all.subrange(i as int, all.len() as int);
            let ghost prev = out@.map_values(|x: ItemRow| x@);
            proof {
                assert(rest[0] == all[i as int]);
                assert(rest.drop_first() =~= all.subrange(i + 1 as int, all.len() as int));
            }
            let keep = self.rows[i].timestamp.unix_utc_ms < before.unix_utc_ms
                && Store::scope_keeps_exec(scope, &self.rows[i]);
            if keep {
                out.push(self.rows[i].duplicate());
                proof {
                    assert(out@.map_values(|x: ItemRow| x@) =~= prev.push(rest[0]));
                    let tail = spec_select(rest.drop_first(), b, sv);
                    assert(prev + (seq![rest[0]] + tail) =~= prev.push(rest[0]) + tail);
                }
            }
            i = i + 1;
        }
        proof {
            assert(all.subrange(i as int, all.len() as int) =~= Seq::<ItemRowV>::empty());
            assert(out@.map_values(|x: ItemRow| x@) + Seq::<ItemRowV>::empty()
                =~= out@.map_values(|x: ItemRow| x@));
        }
        out
    }

    /// Annotate selected rows with their authors' current display names.
    pub fn annotate(&self, selected: Vec<ItemRow>) -> (r: Vec<ItemDisplayRow>)
        requires
            self.wf(),
        ensures
            r@.map_values(|x: ItemDisplayRow| x@) == spec_annotated(
                self.rows_view(),
                selected@.map_values(|x: ItemRow| x@),
            ),
    {
        let ghost all = self.rows_view();
        let ghost sel = selected@.map_values(|x: ItemRow| x@);
        let mut out: Vec<ItemDisplayRow> = Vec::new();
        let mut i: usize = 0;
        while i < selected.len()
            invariant
                i <= selected@.len(),
                all == self.rows_view(),
                sel == selected@.map_values(|x: ItemRow| x@),
                self.wf(),
                out@.map_values(|x: ItemDisplayRow| x@) =~= spec_annotated(
                    all,
                    sel.subrange(0, i as int),
                ),
            decreases selected@.len() - i,
        {
            let display_name = self.display_name_of(&selected[i].user);
            out.push(ItemDisplayRow { item: selected[i].duplicate(), display_name });
            proof {
                assert(sel.subrange(0, i + 1 as int) =~= sel.subrange(0, i as int).push(
                    sel[i as int],
                ));
                assert(spec_annotated(all, sel.subrange(0, i as int).push(sel[i as int]))
                    =~= spec_annotated(all, sel.subrange(0, i as int)).push(
                    ItemDisplayRowV {
                        item: sel[i as int],
                        display_name: spec_display_name_of(all, sel[i as int].user),
                    },
                ));
                assert(out@.map_values(|x: ItemDisplayRow| x@) =~= spec_annotated(
                    all,
                    sel.subrange(0, i + 1 as int),
                ));
            }
            i = i + 1;
        }
        proof {
            assert(sel.subrange(0, sel.len() as int) =~= sel);
        }
        out
    }

    /// The homepage query: every row before the bound, annotated.
    pub fn homepage_items(&self, before: Timestamp) -> (r: Vec<ItemDisplayRow>)
        requires
            self.wf(),
        ensures
            r@.map_values(|x: ItemDisplayRow| x@) == spec_annotated(
                self.rows_view(),
                spec_select(self.rows_view(), before.unix_utc_ms, ScopeV::All),
            ),
    {
        let selected = self.select_rows(before, &Scope::All);
        self.annotate(selected)
    }

    /// One identity's own rows before the bound, newest first.
    pub fn user_items(&self, user: &UserID, before: Timestamp) -> (r: Vec<ItemRow>)
        requires
            self.wf(),
        ensures
            r@.map_values(|x: ItemRow| x@) == spec_select(
                self.rows_view(),
                before.unix_utc_ms,
                ScopeV::ByUser(user@),
            ),
    {
        let scope = Scope::ByUser(user.duplicate());
        let r = self.select_rows(before, &scope);
        r
    }

    /// One identity's own rows before the bound, newest first, carried
    /// without display-name annotation.
    pub fn user_items_plain(&self, user: &UserID, before: Timestamp) -> (r: Vec<ItemDisplayRow>)
        requires
            self.wf(),
        ensures
            r@.map_values(|x: ItemDisplayRow| x@) == spec_plain(
                spec_select(self.rows_view(), before.unix_utc_ms, ScopeV::ByUser(user@)),
            ),
    {
        let selected = self.user_items(user, before);
        let ghost sel = selected@.map_values(|x: ItemRow| x@);
        let mut out: Vec<ItemDisplayRow> = Vec::new();
        let mut i: usize = 0;
        while i < selected.len()
            invariant
                i <= selected@.len(),
                sel == selected@.map_values(|x: ItemRow| x@),
                out@.map_values(|x: ItemDisplayRow| x@) =~= spec_plain(
                    sel.subrange(0, i as int),
                ),
            decreases selected@.len() - i,
        {
            out.push(ItemDisplayRow { item: selected[i].duplicate(), display_name: None });
            proof {
                assert(sel.subrange(0, i + 1 as int) =~= sel.subrange(0, i as int).push(
                    sel[i as int],
                ));
                assert(spec_plain(sel.subrange(0, i as int).push(sel[i as int])) =~= spec_plain(
                    sel.subrange(0, i as int),
                ).push(ItemDisplayRowV { item: sel[i as int], display_name: None }));
                assert(out@.map_values(|x: ItemDisplayRow| x@) =~= spec_plain(
                    sel.subrange(0, i + 1 as int),
                ));
            }
            i = i + 1;
        }
        proof {
            assert(sel.subrange(0, sel.len() as int) =~= sel);
        }
        out
    }

    /// The feed of users this identity follows: their rows before the
    /// bound, annotated, newest first.
    pub fn user_feed_items(&self, user: &UserID, before: Timestamp) -> (r: Vec<ItemDisplayRow>)
        requires
            self.wf(),
        ensures
            r@.map_values(|x: ItemDisplayRow| x@) == spec_annotated(
                self.rows_view(),
                spec_select(
                    self.rows_view(),
                    before.unix_utc_ms,
                    ScopeV::ByAuthors(spec_followed(self.rows_view(), user@)),
                ),
            ),
    {
        let authors = self.followed_users(user);
        let scope = Scope::ByAuthors(authors);
        let selected = self.select_rows(before, &scope);
        self.annotate(selected)
    }
}

} // verus!
