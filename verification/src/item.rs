//! The item model: a schema-defined binary message, decoded from an
//! opaque byte payload.
//!
//! An item carries required temporal metadata and exactly one typed
//! payload: a post, a profile update, or a payload whose type this server
//! does not recognise. Unrecognised payloads are kept rather than
//! rejected — forward compatibility is deliberate — and are simply not
//! displayed by default. Text fields hold UTF-8 bytes; rendering them is
//! the caller's concern.

use vstd::prelude::*;

use crate::ids::UserID;

verus! {

/// One entry of a profile's follows list: a weak reference to another
/// identity, with the display name it had when followed.
pub struct Follow {
    /// The followed identity.
    pub user: UserID,
    /// Display name at time of follow (UTF-8 bytes; may be empty).
    pub display_name: Vec<u8>,
}

/// Spec-level mirror of `Follow`.
#[verifier::ext_equal]
pub struct FollowV {
    pub user: Seq<u8>,
    pub display_name: Seq<u8>,
}

impl View for Follow {
    type V = FollowV;

    open spec fn view(&self) -> FollowV {
        FollowV { user: self.user@, display_name: self.display_name@ }
    }
}

/// The closed set of typed payloads an item can carry.
pub enum ItemType {
    /// A timeline entry.
    Post { title: Vec<u8>, body: Vec<u8> },
    /// A profile update: current display name, an about text, and the
    /// ordered list of followed identities.
    Profile { display_name: Vec<u8>, about: Vec<u8>, follows: Vec<Follow> },
    /// A payload newer than this server knows about: kept verbatim, never
    /// displayed by default.
    Unknown { tag: u8, rest: Vec<u8> },
}

/// Spec-level mirror of `ItemType`.
#[verifier::ext_equal]
pub enum ItemTypeV {
    Post { title: Seq<u8>, body: Seq<u8> },
    Profile { display_name: Seq<u8>, about: Seq<u8>, follows: Seq<FollowV> },
    Unknown { tag: u8, rest: Seq<u8> },
}

impl View for ItemType {
    type V = ItemTypeV;

    open spec fn view(&self) -> ItemTypeV {
        match self {
            ItemType::Post { title, body } => ItemTypeV::Post {
                title: title@,
                body: body@,
            },
            ItemType::Profile { display_name, about, follows } => ItemTypeV::Profile {
                display_name: display_name@,
                about: about@,
                follows: follows@.map_values(|f: Follow| f@),
            },
            ItemType::Unknown { tag, rest } => ItemTypeV::Unknown { tag: *tag, rest: rest@ },
        }
    }
}

/// A decoded item: temporal metadata plus one typed payload.
pub struct Item {
    /// Milliseconds since the Unix epoch; the sort key for feeds.
    pub timestamp_ms_utc: i64,
    /// Display-only offset from UTC, in minutes; never used for ordering.
    pub utc_offset_minutes: i32,
    /// The typed payload.
    pub item_type: ItemType,
}

/// Spec-level mirror of `Item`.
#[verifier::ext_equal]
pub struct ItemV {
    pub timestamp_ms_utc: i64,
    pub utc_offset_minutes: i32,
    pub item_type: ItemTypeV,
}

impl View for Item {
    type V = ItemV;

    open spec fn view(&self) -> ItemV {
        ItemV {
            timestamp_ms_utc: self.timestamp_ms_utc,
            utc_offset_minutes: self.utc_offset_minutes,
            item_type: self.item_type@,
        }
    }
}

impl FollowV {
    /// A follow that the wire form can carry: a full-length identity and
    /// a display name whose length fits the length field.
    pub open spec fn wf(self) -> bool {
        &&& self.user.len() == 32
        &&& self.display_name.len() < 65536
    }
}

impl ItemTypeV {
    /// A payload that the wire form can carry. An unknown payload never
    /// uses a recognised tag, so the wire form stays unambiguous.
    pub open spec fn wf(self) -> bool {
        match self {
            ItemTypeV::Post { title, body } => title.len() < 65536 && body.len() < 65536,
            ItemTypeV::Profile { display_name, about, follows } => {
                &&& display_name.len() < 65536
                &&& about.len() < 65536
                &&& follows.len() < 65536
                &&& forall|i: int| 0 <= i < follows.len() ==> (#[trigger] follows[i]).wf()
            },
            ItemTypeV::Unknown { tag, rest: _ } => tag != 1 && tag != 2,
        }
    }
}

impl ItemV {
    /// An item that the wire form can carry.
    pub open spec fn wf(self) -> bool {
        self.item_type.wf()
    }

    /// Structural validity, checked at ingestion after the signature:
    /// invariants the schema itself cannot enforce. A post must have a
    /// non-empty body; profile updates and unrecognised payloads carry no
    /// further structural requirement.
    pub open spec fn valid(self) -> bool {
        match self.item_type {
            ItemTypeV::Post { title: _, body } => body.len() > 0,
            _ => true,
        }
    }

    /// The display filter: whether this item appears in feeds by default.
    /// Posts do; profile updates are data, not timeline entries; payloads
    /// of unrecognised type are never shown by default.
    pub open spec fn shown_by_default(self) -> bool {
        self.item_type is Post
    }
}

impl Item {
    /// Structural validation, distinct from cryptographic validation.
    pub fn validate(&self) -> (r: bool)
        ensures
            r == self@.valid(),
    {
        match &self.item_type {
            ItemType::Post { title: _, body } => body.len() > 0,
            _ => true,
        }
    }
}

/// The shared default display filter for every feed: show posts, hide
/// profile updates, hide payloads of unrecognised type.
pub fn display_by_default(item: &Item) -> (r: bool)
    ensures
        r == item@.shown_by_default(),
{
    match &item.item_type {
        ItemType::Post { .. } => true,
        ItemType::Profile { .. } => false,
        ItemType::Unknown { .. } => false,
    }
}

} // verus!
