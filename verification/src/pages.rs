//! The read endpoints: what each page shows, computed from the store.
//!
//! Rendering (HTML, URLs, navigation chrome) lives outside the library;
//! these functions return the data a renderer needs, with contracts that
//! pin every field to the store's contents.

use vstd::prelude::*;

use crate::ids::{Signature, UserID};
use crate::item::{Follow, ItemType, ItemTypeV};
use crate::pagination::{
    spec_page,
    spec_page_len,
    IndexPageItem,
    MoreLink,
    PageError,
    PageMessage,
    Paginator,
    Pagination,
};
use crate::store::{
    has_item,
    lemma_first_profile_is_profile,
    spec_annotated,
    spec_display_name_of,
    spec_first_profile,
    spec_followed,
    spec_select,
    ItemDisplayRow,
    ItemDisplayRowV,
    ItemRow,
    ScopeV,
    Store,
    Timestamp,
};
use crate::wire::{decode_item, spec_decode};

verus! {

/// The timestamp bound a paging request uses: the caller's `before`
/// cursor, or now when none was supplied.
pub open spec fn spec_bound(p: Pagination, now: i64) -> i64 {
    match p.before {
        Option::None => now,
        Option::Some(b) => b,
    }
}

/// A feed page, ready to render: the included items, whether more rows
/// remain, the empty-page message, and the continuation cursor.
pub struct IndexPage {
    pub items: Vec<IndexPageItem>,
    pub has_more: bool,
    pub message: Option<PageMessage>,
    pub more: Option<MoreLink>,
    /// Whether the renderer should show author names with links.
    pub show_authors: bool,
}

impl IndexPage {
    /// The page's message and continuation agree with its items: a
    /// message exactly when the page is empty, a continuation exactly
    /// when the page filled and more rows remain.
    pub open spec fn coherent(&self, options: Pagination) -> bool {
        &&& self.message == if self.items@.len() == 0 {
            if options.before is None {
                Some(PageMessage::NothingToDisplay)
            } else {
                Some(PageMessage::NoMoreItems)
            }
        } else {
            Option::<PageMessage>::None
        }
        &&& (self.more is Some <==> self.has_more && self.items@.len() > 0)
        &&& (self.more matches Some(l) ==> l.before
            == self.items@.last()@.item.timestamp_ms_utc && l.count == options.count)
    }
}

/// Assemble a page from a freshly run paginator.
fn assemble_page(paginator: Paginator, show_authors: bool) -> (r: IndexPage)
    ensures
        r.items == paginator.items,
        r.has_more == paginator.has_more,
        r.show_authors == show_authors,
        r.coherent(paginator.options),
{
    let message = paginator.message();
    let more = paginator.more_items_link();
    IndexPage { items: paginator.items, has_more: paginator.has_more, message, more, show_authors }
}

/// The homepage: the most recent displayable items from every author,
/// paginated by the caller's request.
pub fn index_page(store: &Store, options: Pagination, now: Timestamp) -> (r: Result<
    IndexPage,
    PageError,
>)
    requires
        store.wf(),
    ensures
        ({
            let source = spec_annotated(
                store.rows_view(),
                spec_select(store.rows_view(), spec_bound(options, now.unix_utc_ms), ScopeV::All),
            );
            match spec_page(source, spec_page_len(options)) {
                Option::None => r is Err,
                Option::Some((items, more)) => r matches Ok(page) && page.items@.map_values(
                    |p: IndexPageItem| p@.row,
                ) == items && page.has_more == more && page.coherent(options) && page.show_authors
                    && (forall|i: int|
                    0 <= i < page.items@.len() ==> crate::pagination::page_item_ok(
                        #[trigger] page.items@[i]@,
                    )),
            }
        }),
{
    let before = match options.before {
        Option::None => now,
        Option::Some(b) => Timestamp { unix_utc_ms: b },
    };
    let rows = store.homepage_items(before);
    let mut paginator = Paginator::new(options);
    match paginator.run(&rows) {
        Result::Err(e) => Err(e),
        Result::Ok(()) => Ok(assemble_page(paginator, true)),
    }
}

/// A user's feed: the most recent displayable items from the authors
/// their newest profile follows, paginated by the caller's request.
pub fn user_feed_page(store: &Store, user: &UserID, options: Pagination, now: Timestamp) -> (r:
    Result<IndexPage, PageError>)
    requires
        store.wf(),
    ensures
        ({
            let source = spec_annotated(
                store.rows_view(),
                spec_select(
                    store.rows_view(),
                    spec_bound(options, now.unix_utc_ms),
                    ScopeV::ByAuthors(spec_followed(store.rows_view(), user@)),
                ),
            );
            match spec_page(source, spec_page_len(options)) {
                Option::None => r is Err,
                Option::Some((items, more)) => r matches Ok(page) && page.items@.map_values(
                    |p: IndexPageItem| p@.row,
                ) == items && page.has_more == more && page.coherent(options) && page.show_authors
                    && (forall|i: int|
                    0 <= i < page.items@.len() ==> crate::pagination::page_item_ok(
                        #[trigger] page.items@[i]@,
                    )),
            }
        }),
{
    let before = match options.before {
        Option::None => now,
        Option::Some(b) => Timestamp { unix_utc_ms: b },
    };
    let rows = store.user_feed_items(user, before);
    let mut paginator = Paginator::new(options);
    match paginator.run(&rows) {
        Result::Err(e) => Err(e),
        Result::Ok(()) => Ok(assemble_page(paginator, true)),
    }
}

/// The per-user timeline's row stream: the identity's own rows before
/// the bound, carried without a display name.
pub open spec fn spec_own_rows(rows: Seq<crate::store::ItemRowV>, u: Seq<u8>, bound: i64) -> Seq<
    ItemDisplayRowV,
> {
    crate::store::spec_plain(spec_select(rows, bound, ScopeV::ByUser(u)))
}

/// A user's own page: their most recent displayable items, paginated
/// like every other feed (the page does not repeat their name on every
/// row), plus the display name their newest profile declares, for the
/// page heading.
pub struct UserPage {
    pub page: IndexPage,
    pub profile_name: Option<Vec<u8>>,
}

/// A user's own timeline, paginated by the caller's request.
pub fn user_items_page(store: &Store, user: &UserID, options: Pagination, now: Timestamp) -> (r:
    Result<UserPage, PageError>)
    requires
        store.wf(),
    ensures
        ({
            let source = spec_own_rows(
                store.rows_view(),
                user@,
                spec_bound(options, now.unix_utc_ms),
            );
            match spec_page(source, spec_page_len(options)) {
                Option::None => r is Err,
                Option::Some((items, more)) => r matches Ok(up) && up.page.items@.map_values(
                    |p: IndexPageItem| p@.row,
                ) == items && up.page.has_more == more && up.page.coherent(options)
                    && !up.page.show_authors && (forall|i: int|
                    0 <= i < up.page.items@.len() ==> crate::pagination::page_item_ok(
                        #[trigger] up.page.items@[i]@,
                    )) && (match up.profile_name {
                    Option::Some(n) => spec_display_name_of(store.rows_view(), user@) == Some(n@),
                    Option::None => spec_display_name_of(store.rows_view(), user@) is None,
                }),
            }
        }),
{
    let before = match options.before {
        Option::None => now,
        Option::Some(b) => Timestamp { unix_utc_ms: b },
    };
    let rows = store.user_items_plain(user, before);
    let mut paginator = Paginator::new(options);
    match paginator.run(&rows) {
        Result::Err(e) => Err(e),
        Result::Ok(()) => {
            let page = assemble_page(paginator, false);
            let profile_name = store.display_name_of(user);
            Ok(UserPage { page, profile_name })
        },
    }
}

/// The exact stored bytes for a `(user, signature)` pair, or nothing:
/// the single-item read endpoint. The bytes are returned as stored,
/// never transformed, so a caller can re-verify the signature.
pub fn get_item(store: &Store, user: &UserID, signature: &Signature) -> (r: Option<Vec<u8>>)
    requires
        store.wf(),
    ensures
        r is Some <==> has_item(store.rows_view(), user@, signature@),
        r matches Some(bytes) ==> exists|i: int|
            0 <= i < store.rows_view().len() && (#[trigger] store.rows_view()[i]).user == user@
                && store.rows_view()[i].signature == signature@ && store.rows_view()[i].item_bytes
                == bytes@,
{
    match store.user_item(user, signature) {
        Option::None => None,
        Option::Some(row) => {
            proof {
                let rv = row@;
                let i = choose|i: int|
                    0 <= i < store.rows_view().len() && store.rows_view()[i] == rv;
                assert(store.rows_view()[i].user == user@);
            }
            Some(row.item_bytes)
        },
    }
}

/// A post, ready to render.
pub struct PostPageData {
    pub user: UserID,
    pub signature: Signature,
    /// The author's current display name, if their profile declares one.
    pub display_name: Option<Vec<u8>>,
    pub title: Vec<u8>,
    pub body: Vec<u8>,
    pub timestamp_ms_utc: i64,
    pub utc_offset_minutes: i32,
}

/// What the single-item page shows.
pub enum ShowItemPage {
    /// No row under this `(user, signature)`.
    NotFound,
    /// The row's payload type is newer than this server knows.
    UnknownType,
    /// The row is a profile update, which has no item page of its own.
    ProfileUpdate,
    /// The row is a post.
    Post(PostPageData),
}

/// The single-item page: look the row up — the `(user, signature)` pair
/// determines it — decode it, and hand the renderer what its payload
/// type calls for: the post page for a post, a plain note for a profile
/// update, the unknown-payload note for a payload this server does not
/// recognise, an error for a row whose bytes no longer decode.
pub fn show_item(store: &Store, user: &UserID, signature: &Signature) -> (r: Result<
    ShowItemPage,
    PageError,
>)
    requires
        store.wf(),
    ensures
        match crate::store::spec_find_item(store.rows_view(), user@, signature@) {
            Option::None => r == Result::<ShowItemPage, PageError>::Ok(ShowItemPage::NotFound),
            Option::Some(rv) => match spec_decode(rv.item_bytes) {
                Option::None => r == Result::<ShowItemPage, PageError>::Err(
                    PageError::CorruptRow,
                ),
                Option::Some(iv) => match iv.item_type {
                    ItemTypeV::Unknown { .. } => r == Result::<ShowItemPage, PageError>::Ok(
                        ShowItemPage::UnknownType,
                    ),
                    ItemTypeV::Profile { .. } => r == Result::<ShowItemPage, PageError>::Ok(
                        ShowItemPage::ProfileUpdate,
                    ),
                    ItemTypeV::Post { title, body } => (r matches Ok(
                        ShowItemPage::Post(p),
                    ) && p.user@ == user@ && p.signature@ == signature@ && p.title@ == title
                        && p.body@ == body && p.timestamp_ms_utc == iv.timestamp_ms_utc
                        && p.utc_offset_minutes == iv.utc_offset_minutes && (match p.display_name {
                        Option::Some(n) => spec_display_name_of(store.rows_view(), user@) == Some(
                            n@,
                        ),
                        Option::None => spec_display_name_of(store.rows_view(), user@) is None,
                    })),
                },
            },
        },
{
    let row = match store.user_item(user, signature) {
        Option::None => {
            proof {
                crate::store::lemma_find_item_has(store.rows_view(), user@, signature@);
            }
            return Ok(ShowItemPage::NotFound);
        },
        Option::Some(row) => row,
    };
    let item = match decode_item(row.item_bytes.as_slice()) {
        Option::None => {
            return Err(PageError::CorruptRow);
        },
        Option::Some(item) => item,
    };
    match item.item_type {
        ItemType::Unknown { .. } => Ok(ShowItemPage::UnknownType),
        ItemType::Profile { .. } => Ok(ShowItemPage::ProfileUpdate),
        ItemType::Post { title, body } => {
            let display_name = store.display_name_of(user);
            Ok(
                ShowItemPage::Post(
                    PostPageData {
                        user: user.duplicate(),
                        signature: signature.duplicate(),
                        display_name,
                        title,
                        body,
                        timestamp_ms_utc: item.timestamp_ms_utc,
                        utc_offset_minutes: item.utc_offset_minutes,
                    },
                ),
            )
        },
    }
}

/// A profile, ready to render.
pub struct ProfilePageData {
    pub user: UserID,
    pub signature: Signature,
    pub display_name: Vec<u8>,
    pub about: Vec<u8>,
    pub follows: Vec<Follow>,
    pub timestamp_ms_utc: i64,
    pub utc_offset_minutes: i32,
}

/// The profile page: the newest profile row of this identity, decoded,
/// or nothing when they never published a profile here.
pub fn show_profile(store: &Store, user: &UserID) -> (r: Option<ProfilePageData>)
    requires
        store.wf(),
    ensures
        r is Some <==> spec_first_profile(store.rows_view(), user@) is Some,
        r matches Some(p) ==> ({
            let rv = spec_first_profile(store.rows_view(), user@)->Some_0;
            &&& p.user@ == rv.user
            &&& p.signature@ == rv.signature
            &&& spec_decode(rv.item_bytes) == Some(
                crate::item::ItemV {
                    timestamp_ms_utc: p.timestamp_ms_utc,
                    utc_offset_minutes: p.utc_offset_minutes,
                    item_type: ItemTypeV::Profile {
                        display_name: p.display_name@,
                        about: p.about@,
                        follows: p.follows@.map_values(|f: Follow| f@),
                    },
                },
            )
        }),
{
    let row = match store.user_profile(user) {
        Option::None => {
            return None;
        },
        Option::Some(row) => row,
    };
    proof {
        lemma_first_profile_is_profile(store.rows_view(), user@);
    }
    match decode_item(row.item_bytes.as_slice()) {
        Option::Some(item) => match item.item_type {
            ItemType::Profile { display_name, about, follows } => {
                proof {
                    assert(spec_decode(row@.item_bytes) == Some(item@));
                }
                Some(
                    ProfilePageData {
                        user: row.user,
                        signature: row.signature,
                        display_name,
                        about,
                        follows,
                        timestamp_ms_utc: item.timestamp_ms_utc,
                        utc_offset_minutes: item.utc_offset_minutes,
                    },
                )
            },
            _ => {
                proof {
                    assert(false);
                }
                None
            },
        },
        Option::None => {
            proof {
                assert(false);
            }
            None
        },
    }
}

} // verus!
