//! The ingestion pipeline: the write path from a claimed identity,
//! signature and declared length to one durable row.
//!
//! The checks run in a fixed order, each short-circuiting with a specific
//! outcome: length header present, length parses, length within the hard
//! cap, idempotent existence check, authorisation, signature
//! verification, decode and structural validation, quota, persistence.
//! The order is enforced by types: the pipeline is a chain of states,
//! each consumed by the one event it awaits, so a request rejected for
//! size can never reach the state that asks the backend anything or
//! accepts body bytes, and unauthenticated bytes can never reach the
//! decoder.

use vstd::prelude::*;

use crate::ids::{copy_bytes, sig_valid_of, Signature, UserID};
use crate::item::Item;
use crate::store::{
    count_user_rows,
    has_item,
    DenyReason,
    ItemRow,
    ItemRowV,
    Store,
    Timestamp,
};
use crate::wire::{decode_item, spec_decode};

verus! {

/// The hard cap on a declared (and actual) payload size, in bytes.
pub const MAX_ITEM_SIZE: u64 = 32768;

/// Every way an ingestion attempt can end.
#[derive(Clone, Copy, PartialEq, Eq, Structural, Debug)]
pub enum IngestOutcome {
    /// The row was persisted; carries how many body bytes were received.
    Created { bytes_received: usize },
    /// A row with this `(user, signature)` already exists; idempotent
    /// success, nothing written.
    AlreadyExists,
    /// No length header was supplied.
    LengthRequired,
    /// The length header does not parse as a non-negative integer, or
    /// the body does not have exactly the declared length.
    BadLength,
    /// The declared length exceeds the hard cap.
    TooLarge,
    /// The claimed identity is not allowed to post here.
    ForbiddenUnknownUser,
    /// The signature does not verify over the received bytes.
    InvalidSignature,
    /// The bytes do not decode as an item, or fail structural validation.
    InvalidItem,
    /// The backend's quota policy denied the write, with its reason.
    QuotaDenied(DenyReason),
}

/// Whether every byte is an ASCII decimal digit.
pub open spec fn all_digits(s: Seq<u8>) -> bool {
    forall|i: int| 0 <= i < s.len() ==> 48 <= #[trigger] s[i] <= 57
}

/// The number a digit string denotes.
pub open spec fn digits_value(s: Seq<u8>) -> int
    decreases s.len(),
{
    if s.len() == 0 {
        0
    } else {
        digits_value(s.drop_last()) * 10 + (s.last() - 48)
    }
}

/// What a length header parses to: a non-empty string of decimal digits
/// whose value fits an unsigned 64-bit integer; anything else is
/// rejected.
pub open spec fn spec_parse_decimal(s: Seq<u8>) -> Option<u64> {
    if s.len() == 0 || !all_digits(s) {
        None
    } else if digits_value(s) > u64::MAX {
        None
    } else {
        Some(digits_value(s) as u64)
    }
}

/// A digit string denotes a non-negative number.
proof fn lemma_digits_value_nonneg(s: Seq<u8>)
    requires
        all_digits(s),
    ensures
        digits_value(s) >= 0,
    decreases s.len(),
{
    if s.len() > 0 {
        assert(all_digits(s.drop_last())) by {
            assert(forall|i: int|
                0 <= i < s.drop_last().len() ==> s.drop_last()[i] == #[trigger] s[i]);
        }
        lemma_digits_value_nonneg(s.drop_last());
    }
}

/// Extending a digit string never shrinks its value.
proof fn lemma_digits_value_monotone(s: Seq<u8>, k: int)
    requires
        all_digits(s),
        0 <= k <= s.len(),
    ensures
        digits_value(s) >= digits_value(s.subrange(0, k)),
    decreases s.len() - k,
{
    if k < s.len() {
        let a = s.subrange(0, k);
        let b = s.subrange(0, k + 1);
        assert(b.drop_last() =~= a);
        assert(all_digits(a)) by {
            assert(forall|i: int| 0 <= i < a.len() ==> a[i] == #[trigger] s[i]);
        }
        lemma_digits_value_nonneg(a);
        assert(digits_value(b) == digits_value(a) * 10 + (s[k] - 48));
        assert(digits_value(b) >= digits_value(a));
        lemma_digits_value_monotone(s, k + 1);
    } else {
        assert(s.subrange(0, k) =~= s);
    }
}

/// Parse a length header: a non-empty string of decimal digits whose
/// value fits an unsigned 64-bit integer.
pub fn parse_decimal(s: &[u8]) -> (r: Option<u64>)
    ensures
        r == spec_parse_decimal(s@),
{
    if s.len() == 0 {
        return None;
    }
    let mut acc: u64 = 0;
    let mut i: usize = 0;
    while i < s.len()
        invariant
            0 < i <= s@.len() || i == 0,
            all_digits(s@.subrange(0, i as int)),
            acc == digits_value(s@.subrange(0, i as int)),
        decreases s@.len() - i,
    {
        let b = s[i];
        if b < 48 || b > 57 {
            assert(!all_digits(s@)) by {
                assert(!(48 <= s@[i as int] <= 57));
            }
            return None;
        }
        let wide: u128 = (acc as u128) * 10 + ((b - 48) as u128);
        proof {
            assert(s@.subrange(0, i + 1 as int).drop_last() =~= s@.subrange(0, i as int));
            assert(s@.subrange(0, i + 1 as int).last() == s@[i as int]);
            assert(all_digits(s@.subrange(0, i + 1 as int)));
            assert(wide == digits_value(s@.subrange(0, i + 1 as int)));
        }
        if wide > 0xffff_ffff_ffff_ffffu128 {
            proof {
                if all_digits(s@) {
                    lemma_digits_value_monotone(s@, i + 1);
                    assert(digits_value(s@) > u64::MAX);
                }
            }
            return None;
        }
        acc = wide as u64;
        i = i + 1;
    }
    proof {
        assert(s@.subrange(0, i as int) =~= s@);
        lemma_digits_value_nonneg(s@);
    }
    Some(acc)
}

/// Awaiting the backend's answer to "does this `(user, signature)` row
/// already exist?".
pub struct AwaitExists {
    pub user: UserID,
    pub signature: Signature,
    pub declared_len: u64,
}

/// Awaiting the backend's answer to "is this identity known here?".
pub struct AwaitKnown {
    pub user: UserID,
    pub signature: Signature,
    pub declared_len: u64,
}

/// Awaiting the body bytes: at most `declared_len` of them are to be
/// read from the request stream.
pub struct AwaitBody {
    pub user: UserID,
    pub signature: Signature,
    pub declared_len: u64,
}

/// Awaiting the backend's quota decision for this validated payload.
pub struct AwaitQuota {
    pub user: UserID,
    pub signature: Signature,
    pub bytes: Vec<u8>,
    pub item: Item,
}

/// The fully validated row, ready for the backend's save operation,
/// together with its decoded item so the backend can index type-specific
/// fields without re-decoding.
pub struct SaveRow {
    pub row: ItemRow,
    pub item: Item,
}

/// What the first stage decides.
pub enum AfterStart {
    Done(IngestOutcome),
    CheckExists(AwaitExists),
}

/// What the existence stage decides.
pub enum AfterExists {
    Done(IngestOutcome),
    CheckKnown(AwaitKnown),
}

/// What the authorisation stage decides.
pub enum AfterKnown {
    Done(IngestOutcome),
    ReadBody(AwaitBody),
}

/// What the body stage decides.
pub enum AfterBody {
    Done(IngestOutcome),
    CheckQuota(AwaitQuota),
}

/// What the quota stage decides.
pub enum AfterQuota {
    Done(IngestOutcome),
    Save(SaveRow),
}

/// The first stage: length header present, parseable, within the cap.
/// A request rejected here never reaches a state that could ask the
/// backend anything or accept body bytes.
pub fn start_ingest(user: UserID, signature: Signature, content_length: Option<&[u8]>) -> (r:
    AfterStart)
    requires
        user.wf(),
        signature.wf(),
    ensures
        match content_length {
            Option::None => r == AfterStart::Done(IngestOutcome::LengthRequired),
            Option::Some(h) => match spec_parse_decimal(h@) {
                Option::None => r == AfterStart::Done(IngestOutcome::BadLength),
                Option::Some(n) => if n > MAX_ITEM_SIZE {
                    r == AfterStart::Done(IngestOutcome::TooLarge)
                } else {
                    r matches AfterStart::CheckExists(st) && st.user@ == user@
                        && st.signature@ == signature@ && st.declared_len == n && st.user.wf()
                        && st.signature.wf()
                },
            },
        },
{
    let header = match content_length {
        Option::None => {
            return AfterStart::Done(IngestOutcome::LengthRequired);
        },
        Option::Some(h) => h,
    };
    let n = match parse_decimal(header) {
        Option::None => {
            return AfterStart::Done(IngestOutcome::BadLength);
        },
        Option::Some(n) => n,
    };
    if n > MAX_ITEM_SIZE {
        return AfterStart::Done(IngestOutcome::TooLarge);
    }
    AfterStart::CheckExists(AwaitExists { user, signature, declared_len: n })
}

impl AwaitExists {
    /// Consume the backend's existence answer: an existing row is
    /// idempotent success, and nothing further happens.
    pub fn exists_answer(self, exists: bool) -> (r: AfterExists)
        requires
            self.user.wf(),
            self.signature.wf(),
        ensures
            exists ==> r == AfterExists::Done(IngestOutcome::AlreadyExists),
            !exists ==> (r matches AfterExists::CheckKnown(st) && st.user@ == self.user@
                && st.signature@ == self.signature@ && st.declared_len == self.declared_len
                && st.user.wf() && st.signature.wf()),
    {
        if exists {
            AfterExists::Done(IngestOutcome::AlreadyExists)
        } else {
            AfterExists::CheckKnown(
                AwaitKnown {
                    user: self.user,
                    signature: self.signature,
                    declared_len: self.declared_len,
                },
            )
        }
    }
}

impl AwaitKnown {
    /// Consume the backend's authorisation answer.
    pub fn known_answer(self, known: bool) -> (r: AfterKnown)
        requires
            self.user.wf(),
            self.signature.wf(),
        ensures
            !known ==> r == AfterKnown::Done(IngestOutcome::ForbiddenUnknownUser),
            known ==> (r matches AfterKnown::ReadBody(st) && st.user@ == self.user@
                && st.signature@ == self.signature@ && st.declared_len == self.declared_len
                && st.user.wf() && st.signature.wf()),
    {
        if !known {
            AfterKnown::Done(IngestOutcome::ForbiddenUnknownUser)
        } else {
            AfterKnown::ReadBody(
                AwaitBody {
                    user: self.user,
                    signature: self.signature,
                    declared_len: self.declared_len,
                },
            )
        }
    }
}

/// What the body stage decides about received bytes: the body must have
/// exactly the declared length, the signature must verify over exactly
/// these bytes — strictly before any decoding, so unauthenticated bytes
/// never reach the parser — and the decoded item must pass structural
/// validation.
pub open spec fn spec_body_outcome(u: Seq<u8>, s: Seq<u8>, declared: u64, body: Seq<u8>) -> Option<
    IngestOutcome,
> {
    if body.len() != declared {
        Some(IngestOutcome::BadLength)
    } else if !sig_valid_of(u, s, body) {
        Some(IngestOutcome::InvalidSignature)
    } else {
        match spec_decode(body) {
            Option::None => Some(IngestOutcome::InvalidItem),
            Option::Some(iv) => if !iv.valid() {
                Some(IngestOutcome::InvalidItem)
            } else {
                None
            },
        }
    }
}

impl AwaitBody {
    /// Consume the received body bytes.
    pub fn body_received(self, bytes: Vec<u8>) -> (r: AfterBody)
        requires
            self.user.wf(),
            self.signature.wf(),
        ensures
            match spec_body_outcome(self.user@, self.signature@, self.declared_len, bytes@) {
                Option::Some(outcome) => r == AfterBody::Done(outcome),
                Option::None => r matches AfterBody::CheckQuota(st) && st.user@ == self.user@
                    && st.signature@ == self.signature@ && st.bytes@ == bytes@ && spec_decode(
                    bytes@,
                ) == Some(st.item@) && st.user.wf() && st.signature.wf(),
            },
    {
        if bytes.len() as u64 != self.declared_len {
            return AfterBody::Done(IngestOutcome::BadLength);
        }
        if !self.signature.is_valid(&self.user, bytes.as_slice()) {
            return AfterBody::Done(IngestOutcome::InvalidSignature);
        }
        let item = match decode_item(bytes.as_slice()) {
            Option::None => {
                return AfterBody::Done(IngestOutcome::InvalidItem);
            },
            Option::Some(item) => item,
        };
        if !item.validate() {
            return AfterBody::Done(IngestOutcome::InvalidItem);
        }
        AfterBody::CheckQuota(
            AwaitQuota { user: self.user, signature: self.signature, bytes, item },
        )
    }
}

impl AwaitQuota {
    /// Consume the backend's quota decision; absent a denial, build the
    /// durable row: the item's own declared timestamp as sort key, the
    /// server clock as `received`, and the exact verified bytes.
    pub fn quota_answer(self, deny: Option<DenyReason>, now: Timestamp) -> (r: AfterQuota)
        requires
            self.user.wf(),
            self.signature.wf(),
            spec_decode(self.bytes@) == Some(self.item@),
        ensures
            match deny {
                Option::Some(reason) => r == AfterQuota::Done(IngestOutcome::QuotaDenied(reason)),
                Option::None => r matches AfterQuota::Save(sr) && sr.row@ == (ItemRowV {
                    user: self.user@,
                    signature: self.signature@,
                    timestamp: self.item@.timestamp_ms_utc,
                    received: now.unix_utc_ms,
                    item_bytes: self.bytes@,
                }) && sr.row.wf() && sr.item@ == self.item@,
            },
    {
        match deny {
            Option::Some(reason) => AfterQuota::Done(IngestOutcome::QuotaDenied(reason)),
            Option::None => {
                let timestamp = Timestamp { unix_utc_ms: self.item.timestamp_ms_utc };
                AfterQuota::Save(
                    SaveRow {
                        row: ItemRow {
                            user: self.user,
                            signature: self.signature,
                            timestamp,
                            received: now,
                            item_bytes: self.bytes,
                        },
                        item: self.item,
                    },
                )
            },
        }
    }
}

/// What ingesting a request against a given store state yields, from the
/// ordered checks of the write path.
pub open spec fn spec_ingest(
    rows: Seq<ItemRowV>,
    known: Seq<Seq<u8>>,
    quota: Option<usize>,
    u: Seq<u8>,
    s: Seq<u8>,
    header: Option<Seq<u8>>,
    body: Seq<u8>,
) -> IngestOutcome {
    match header {
        Option::None => IngestOutcome::LengthRequired,
        Option::Some(h) => match spec_parse_decimal(h) {
            Option::None => IngestOutcome::BadLength,
            Option::Some(n) => if n > MAX_ITEM_SIZE {
                IngestOutcome::TooLarge
            } else if has_item(rows, u, s) {
                IngestOutcome::AlreadyExists
            } else if !known.contains(u) {
                IngestOutcome::ForbiddenUnknownUser
            } else {
                match spec_body_outcome(u, s, n, body) {
                    Option::Some(outcome) => outcome,
                    Option::None => if quota matches Some(q) && count_user_rows(rows, u) >= q {
                        IngestOutcome::QuotaDenied(DenyReason::QuotaExceeded)
                    } else {
                        IngestOutcome::Created { bytes_received: body.len() as usize }
                    },
                }
            },
        },
    }
}

/// The row a created ingestion persists: the exact verified bytes under
/// the item's own timestamp.
pub open spec fn spec_ingested_row(u: Seq<u8>, s: Seq<u8>, body: Seq<u8>, now: i64) -> ItemRowV {
    ItemRowV {
        user: u,
        signature: s,
        timestamp: spec_decode(body)->Some_0.timestamp_ms_utc,
        received: now,
        item_bytes: body,
    }
}

/// Run the whole write path against a store: drive the staged pipeline,
/// answering each stage from the store, and persist the row when every
/// check passes. Exactly one durable write on success; zero writes on
/// any rejection.
pub fn ingest(
    store: &mut Store,
    user: UserID,
    signature: Signature,
    content_length: Option<&[u8]>,
    body: &[u8],
    now: Timestamp,
) -> (r: IngestOutcome)
    requires
        old(store).wf(),
        user.wf(),
        signature.wf(),
    ensures
        final(store).wf(),
        final(store).known_view() == old(store).known_view(),
        final(store).quota_view() == old(store).quota_view(),
        r == spec_ingest(
            old(store).rows_view(),
            old(store).known_view(),
            old(store).quota_view(),
            user@,
            signature@,
            match content_length {
                Option::Some(h) => Some(h@),
                Option::None => None,
            },
            body@,
        ),
        (r matches IngestOutcome::Created { .. }) ==> exists|k: int|
            0 <= k <= old(store).rows_view().len() && final(store).rows_view() == old(
                store,
            ).rows_view().insert(
                k,
                spec_ingested_row(user@, signature@, body@, now.unix_utc_ms),
            ),
        !(r matches IngestOutcome::Created { .. }) ==> final(store).rows_view() == old(
            store,
        ).rows_view(),
{
    let st = match start_ingest(user, signature, content_length) {
        AfterStart::Done(outcome) => {
            return outcome;
        },
        AfterStart::CheckExists(st) => st,
    };
    let exists = store.user_item_exists(&st.user, &st.signature);
    let st = match st.exists_answer(exists) {
        AfterExists::Done(outcome) => {
            return outcome;
        },
        AfterExists::CheckKnown(st) => st,
    };
    let known = store.user_known(&st.user);
    let st = match st.known_answer(known) {
        AfterKnown::Done(outcome) => {
            return outcome;
        },
        AfterKnown::ReadBody(st) => st,
    };
    let bytes = copy_bytes(body);
    let st = match st.body_received(bytes) {
        AfterBody::Done(outcome) => {
            return outcome;
        },
        AfterBody::CheckQuota(st) => st,
    };
    let deny = store.quota_check_item(&st.user);
    let sr = match st.quota_answer(deny, now) {
        AfterQuota::Done(outcome) => {
            return outcome;
        },
        AfterQuota::Save(sr) => sr,
    };
    let bytes_received = sr.row.item_bytes.len();
    proof {
        assert(sr.row@ =~~= spec_ingested_row(user@, signature@, body@, now.unix_utc_ms));
    }
    store.save_user_item(sr.row);
    IngestOutcome::Created { bytes_received }
}

} // verus!
