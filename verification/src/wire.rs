//! The wire form of an item.
//!
//! An item is carried as one byte string, laid out as:
//!
//! - bytes `0..8`: the timestamp, offset-binary (value plus 2^63), as a
//!   little-endian `u64`;
//! - bytes `8..12`: the UTC offset in minutes, offset-binary (value plus
//!   2^31), as a little-endian `u32`;
//! - byte `12`: the payload tag — `1` for a post, `2` for a profile
//!   update, anything else an unrecognised payload kept verbatim;
//! - bytes `13..`: the payload.
//!
//! A post payload is `title length (u16 LE) ++ title ++ body length
//! (u16 LE) ++ body`. A profile payload is `display-name length ++
//! display name ++ about length ++ about ++ follow count (u16 LE) ++
//! follows`, each follow being `32 identity bytes ++ display-name length
//! ++ display name`. All length fields are fixed-width, and decoding
//! rejects trailing bytes, so the form is canonical: a byte string that
//! decodes at all is exactly the encoding of what it decodes to.

use vstd::prelude::*;

use vstd::bytes::{
    lemma_auto_spec_u16_to_from_le_bytes,
    lemma_auto_spec_u32_to_from_le_bytes,
    lemma_auto_spec_u64_to_from_le_bytes,
    spec_u16_from_le_bytes,
    spec_u16_to_le_bytes,
    spec_u32_from_le_bytes,
    spec_u32_to_le_bytes,
    spec_u64_from_le_bytes,
    spec_u64_to_le_bytes,
    u16_from_le_bytes,
    u16_to_le_bytes,
    u32_from_le_bytes,
    u32_to_le_bytes,
    u64_from_le_bytes,
    u64_to_le_bytes,
};
use vstd::slice::{slice_subrange, slice_to_vec};

use crate::ids::UserID;
use crate::item::{Follow, FollowV, Item, ItemType, ItemTypeV, ItemV};

verus! {

/// The offset-binary image of a timestamp: its value shifted up by 2^63.
pub open spec fn ts_bits(t: i64) -> u64 {
    (t + 0x8000_0000_0000_0000) as u64
}

/// The timestamp a stored offset-binary image stands for.
pub open spec fn ts_of_bits(u: u64) -> i64 {
    (u - 0x8000_0000_0000_0000) as i64
}

/// The offset-binary image of a UTC offset: its value shifted up by 2^31.
pub open spec fn off_bits(o: i32) -> u32 {
    (o + 0x8000_0000) as u32
}

/// The UTC offset a stored offset-binary image stands for.
pub open spec fn off_of_bits(u: u32) -> i32 {
    (u - 0x8000_0000) as i32
}

/// The wire form of one follow entry.
pub open spec fn spec_encode_follow(f: FollowV) -> Seq<u8> {
    f.user + spec_u16_to_le_bytes(f.display_name.len() as u16) + f.display_name
}

/// The wire form of a follows list: the entries in order.
pub open spec fn spec_encode_follows(fs: Seq<FollowV>) -> Seq<u8>
    decreases fs.len(),
{
    if fs.len() == 0 {
        Seq::empty()
    } else {
        spec_encode_follow(fs[0]) + spec_encode_follows(fs.drop_first())
    }
}

/// The tag byte that announces each payload kind.
pub open spec fn spec_tag_of(t: ItemTypeV) -> u8 {
    match t {
        ItemTypeV::Post { .. } => 1,
        ItemTypeV::Profile { .. } => 2,
        ItemTypeV::Unknown { tag, .. } => tag,
    }
}

/// The wire form of a payload, without its tag byte.
pub open spec fn spec_encode_payload(t: ItemTypeV) -> Seq<u8> {
    match t {
        ItemTypeV::Post { title, body } => spec_u16_to_le_bytes(title.len() as u16) + title
            + spec_u16_to_le_bytes(body.len() as u16) + body,
        ItemTypeV::Profile { display_name, about, follows } => spec_u16_to_le_bytes(
            display_name.len() as u16,
        ) + display_name + spec_u16_to_le_bytes(about.len() as u16) + about
            + spec_u16_to_le_bytes(follows.len() as u16) + spec_encode_follows(follows),
        ItemTypeV::Unknown { tag: _, rest } => rest,
    }
}

/// The full wire form of an item.
pub open spec fn spec_encode(iv: ItemV) -> Seq<u8> {
    spec_u64_to_le_bytes(ts_bits(iv.timestamp_ms_utc)) + spec_u32_to_le_bytes(
        off_bits(iv.utc_offset_minutes),
    ) + seq![spec_tag_of(iv.item_type)] + spec_encode_payload(iv.item_type)
}

/// What a follows region of `n` entries decodes to, demanding that it is
/// consumed exactly.
pub open spec fn spec_decode_follows(p: Seq<u8>, n: nat) -> Option<Seq<FollowV>>
    decreases n,
{
    if n == 0 {
        if p.len() == 0 {
            Some(Seq::empty())
        } else {
            None
        }
    } else if p.len() < 34 {
        None
    } else {
        let user = p.subrange(0, 32);
        let dl = spec_u16_from_le_bytes(p.subrange(32, 34)) as int;
        if p.len() < 34 + dl {
            None
        } else {
            let f = FollowV { user, display_name: p.subrange(34, 34 + dl) };
            match spec_decode_follows(p.subrange(34 + dl, p.len() as int), (n - 1) as nat) {
                Option::None => None,
                Option::Some(rest) => Some(seq![f] + rest),
            }
        }
    }
}

/// What a post payload decodes to, demanding exact consumption.
pub open spec fn spec_decode_post(p: Seq<u8>) -> Option<ItemTypeV> {
    if p.len() < 2 {
        None
    } else {
        let tl = spec_u16_from_le_bytes(p.subrange(0, 2)) as int;
        if p.len() < 2 + tl + 2 {
            None
        } else {
            let title = p.subrange(2, 2 + tl);
            let bl = spec_u16_from_le_bytes(p.subrange(2 + tl, 4 + tl)) as int;
            if p.len() != 4 + tl + bl {
                None
            } else {
                Some(ItemTypeV::Post { title, body: p.subrange(4 + tl, 4 + tl + bl) })
            }
        }
    }
}

/// What a profile payload decodes to, demanding exact consumption.
pub open spec fn spec_decode_profile(p: Seq<u8>) -> Option<ItemTypeV> {
    if p.len() < 2 {
        None
    } else {
        let dl = spec_u16_from_le_bytes(p.subrange(0, 2)) as int;
        if p.len() < 2 + dl + 2 {
            None
        } else {
            let display_name = p.subrange(2, 2 + dl);
            let al = spec_u16_from_le_bytes(p.subrange(2 + dl, 4 + dl)) as int;
            if p.len() < 4 + dl + al + 2 {
                None
            } else {
                let about = p.subrange(4 + dl, 4 + dl + al);
                let n = spec_u16_from_le_bytes(p.subrange(4 + dl + al, 6 + dl + al)) as nat;
                match spec_decode_follows(p.subrange(6 + dl + al, p.len() as int), n) {
                    Option::None => None,
                    Option::Some(follows) => Some(
                        ItemTypeV::Profile { display_name, about, follows },
                    ),
                }
            }
        }
    }
}

/// What a byte string decodes to as an item: the definition of the wire
/// grammar. `None` means the bytes are not the wire form of any item.
pub open spec fn spec_decode(b: Seq<u8>) -> Option<ItemV> {
    if b.len() < 13 {
        None
    } else {
        let ts = ts_of_bits(spec_u64_from_le_bytes(b.subrange(0, 8)));
        let off = off_of_bits(spec_u32_from_le_bytes(b.subrange(8, 12)));
        let tag = b[12];
        let payload = b.subrange(13, b.len() as int);
        let item_type = if tag == 1 {
            spec_decode_post(payload)
        } else if tag == 2 {
            spec_decode_profile(payload)
        } else {
            Some(ItemTypeV::Unknown { tag, rest: payload })
        };
        match item_type {
            Option::None => None,
            Option::Some(t) => Some(
                ItemV { timestamp_ms_utc: ts, utc_offset_minutes: off, item_type: t },
            ),
        }
    }
}

/// Append `src` to `dst` byte for byte.
fn push_bytes(dst: &mut Vec<u8>, src: &[u8])
    ensures
        final(dst)@ == old(dst)@ + src@,
{
    let mut i: usize = 0;
    while i < src.len()
        invariant
            i <= src@.len(),
            dst@ == old(dst)@ + src@.subrange(0, i as int),
        decreases src@.len() - i,
    {
        dst.push(src[i]);
        assert(dst@ =~= old(dst)@ + src@.subrange(0, i + 1 as int));
        i = i + 1;
    }
    assert(dst@ =~= old(dst)@ + src@);
}

/// Append the little-endian `u16` form of `v` to `dst`.
fn push_u16(dst: &mut Vec<u8>, v: u16)
    ensures
        final(dst)@ == old(dst)@ + spec_u16_to_le_bytes(v),
{
    let b = u16_to_le_bytes(v);
    push_bytes(dst, b.as_slice());
}

/// Appending one follow to a list extends its wire form at the end.
pub proof fn lemma_encode_follows_push(fs: Seq<FollowV>, f: FollowV)
    ensures
        spec_encode_follows(fs.push(f)) == spec_encode_follows(fs) + spec_encode_follow(f),
    decreases fs.len(),
{
    if fs.len() == 0 {
        let one = fs.push(f);
        assert(one[0] == f);
        assert(one.drop_first() =~= Seq::<FollowV>::empty());
        assert(spec_encode_follows(one.drop_first()) == Seq::<u8>::empty());
        assert(spec_encode_follows(one) == spec_encode_follow(f) + Seq::<u8>::empty());
        assert(spec_encode_follows(fs) == Seq::<u8>::empty());
        assert(spec_encode_follows(one) =~= spec_encode_follows(fs) + spec_encode_follow(f));
    } else {
        assert(fs.push(f).drop_first() =~= fs.drop_first().push(f));
        lemma_encode_follows_push(fs.drop_first(), f);
        assert(spec_encode_follows(fs.push(f)) =~= spec_encode_follows(fs)
            + spec_encode_follow(f));
    }
}

impl Item {
    /// The wire form of this item. The caller never stores what this
    /// returns on another's behalf: stored bytes come from the network
    /// and are the source of truth.
    pub fn encode(&self) -> (r: Vec<u8>)
        requires
            self@.wf(),
        ensures
            r@ == spec_encode(self@),
    {
        let mut out: Vec<u8> = Vec::new();

        let ts_image: u64 = ((self.timestamp_ms_utc as i128) + 0x8000_0000_0000_0000_i128) as u64;
        assert(ts_image == ts_bits(self.timestamp_ms_utc));
        let b8 = u64_to_le_bytes(ts_image);
        push_bytes(&mut out, b8.as_slice());

        let off_image: u32 = ((self.utc_offset_minutes as i64) + 0x8000_0000_i64) as u32;
        assert(off_image == off_bits(self.utc_offset_minutes));
        let b4 = u32_to_le_bytes(off_image);
        push_bytes(&mut out, b4.as_slice());

        match &self.item_type {
            ItemType::Post { title, body } => {
                out.push(1u8);
                push_u16(&mut out, title.len() as u16);
                push_bytes(&mut out, title.as_slice());
                push_u16(&mut out, body.len() as u16);
                push_bytes(&mut out, body.as_slice());
            },
            ItemType::Profile { display_name, about, follows } => {
                out.push(2u8);
                push_u16(&mut out, display_name.len() as u16);
                push_bytes(&mut out, display_name.as_slice());
                push_u16(&mut out, about.len() as u16);
                push_bytes(&mut out, about.as_slice());
                push_u16(&mut out, follows.len() as u16);
                let ghost fvs: Seq<FollowV> = follows@.map_values(|f: Follow| f@);
                let ghost mid = out@;
                let mut i: usize = 0;
                while i < follows.len()
                    invariant
                        i <= follows@.len(),
                        fvs == follows@.map_values(|f: Follow| f@),
                        fvs.len() == follows@.len(),
                        forall|j: int| 0 <= j < follows@.len() ==> fvs[j] == follows@[j]@,
                        out@ == mid + spec_encode_follows(fvs.subrange(0, i as int)),
                        forall|j: int| 0 <= j < fvs.len() ==> (#[trigger] fvs[j]).wf(),
                    decreases follows@.len() - i,
                {
                    let f = &follows[i];
                    assert(f@ == fvs[i as int]);
                    assert(f@.wf());
                    push_bytes(&mut out, f.user.bytes());
                    push_u16(&mut out, f.display_name.len() as u16);
                    push_bytes(&mut out, f.display_name.as_slice());
                    proof {
                        lemma_encode_follows_push(fvs.subrange(0, i as int), fvs[i as int]);
                        assert(fvs.subrange(0, i as int).push(fvs[i as int]) =~= fvs.subrange(
                            0,
                            i + 1 as int,
                        ));
                        assert(out@ =~= mid + spec_encode_follows(fvs.subrange(0, i + 1 as int)));
                    }
                    i = i + 1;
                }
                assert(fvs.subrange(0, fvs.len() as int) =~= fvs);
            },
            ItemType::Unknown { tag, rest } => {
                out.push(*tag);
                push_bytes(&mut out, rest.as_slice());
            },
        }
        proof {
            let iv = self@;
            assert(out@ =~= spec_encode(iv)) by {
                assert(seq![spec_tag_of(iv.item_type)] =~= out@.subrange(12, 13));
            };
        }
        out
    }
}

/// Decode a follows region that must hold exactly `n` entries and be
/// consumed exactly.
fn decode_follows(p: &[u8], n: usize) -> (r: Option<Vec<Follow>>)
    ensures
        r is Some <==> spec_decode_follows(p@, n as nat) is Some,
        r matches Some(fs) ==> spec_decode_follows(p@, n as nat) == Some(
            fs@.map_values(|f: Follow| f@),
        ),
{
    let mut cur: &[u8] = p;
    let mut rem: usize = n;
    let mut acc: Vec<Follow> = Vec::new();
    while rem > 0
        invariant
            rem <= n,
            spec_decode_follows(p@, n as nat) == (match spec_decode_follows(
                cur@,
                rem as nat,
            ) {
                Option::None => Option::<Seq<FollowV>>::None,
                Option::Some(rest) => Option::Some(acc@.map_values(|f: Follow| f@) + rest),
            }),
        decreases rem,
    {
        if cur.len() < 34 {
            return None;
        }
        let user_bytes = slice_to_vec(slice_subrange(cur, 0, 32));
        let user = match UserID::from_vec(user_bytes) {
            Result::Ok(u) => u,
            Result::Err(_) => {
                proof {
                    assert(false);
                }
                return None;
            },
        };
        let dl = u16_from_le_bytes(slice_subrange(cur, 32, 34)) as usize;
        if cur.len() < 34 + dl {
            return None;
        }
        let dn = slice_to_vec(slice_subrange(cur, 34, 34 + dl));
        let ghost prev_cur = cur@;
        let ghost prev_rem = rem as nat;
        let ghost prev_map = acc@.map_values(|f: Follow| f@);
        let ghost fv = FollowV { user: user@, display_name: dn@ };
        acc.push(Follow { user, display_name: dn });
        cur = slice_subrange(cur, 34 + dl, cur.len());
        rem = rem - 1;
        proof {
            assert(acc@.map_values(|f: Follow| f@) =~= prev_map.push(fv));
            assert(spec_decode_follows(prev_cur, prev_rem) == (match spec_decode_follows(
                cur@,
                rem as nat,
            ) {
                Option::None => Option::<Seq<FollowV>>::None,
                Option::Some(rest) => Option::Some(seq![fv] + rest),
            }));
            if spec_decode_follows(cur@, rem as nat) is Some {
                let rest = spec_decode_follows(cur@, rem as nat)->Some_0;
                assert(prev_map + (seq![fv] + rest) =~= prev_map.push(fv) + rest);
            }
        }
    }
    if cur.len() != 0 {
        return None;
    }
    proof {
        assert(spec_decode_follows(cur@, 0) == Option::Some(Seq::<FollowV>::empty()));
        assert(acc@.map_values(|f: Follow| f@) + Seq::<FollowV>::empty() =~= acc@.map_values(
            |f: Follow| f@,
        ));
    }
    Some(acc)
}

/// Decode a post payload, rejecting trailing bytes.
fn decode_post(p: &[u8]) -> (r: Option<ItemType>)
    ensures
        r is Some <==> spec_decode_post(p@) is Some,
        r matches Some(t) ==> spec_decode_post(p@) == Some(t@),
{
    if p.len() < 2 {
        return None;
    }
    let tl = u16_from_le_bytes(slice_subrange(p, 0, 2)) as usize;
    if p.len() < 2 + tl + 2 {
        return None;
    }
    let title = slice_to_vec(slice_subrange(p, 2, 2 + tl));
    let bl = u16_from_le_bytes(slice_subrange(p, 2 + tl, 4 + tl)) as usize;
    if p.len() != 4 + tl + bl {
        return None;
    }
    let body = slice_to_vec(slice_subrange(p, 4 + tl, 4 + tl + bl));
    Some(ItemType::Post { title, body })
}

/// Decode a profile payload, rejecting trailing bytes.
fn decode_profile(p: &[u8]) -> (r: Option<ItemType>)
    ensures
        r is Some <==> spec_decode_profile(p@) is Some,
        r matches Some(t) ==> spec_decode_profile(p@) == Some(t@),
{
    if p.len() < 2 {
        return None;
    }
    let dl = u16_from_le_bytes(slice_subrange(p, 0, 2)) as usize;
    if p.len() < 2 + dl + 2 {
        return None;
    }
    let display_name = slice_to_vec(slice_subrange(p, 2, 2 + dl));
    let al = u16_from_le_bytes(slice_subrange(p, 2 + dl, 4 + dl)) as usize;
    if p.len() < 4 + dl + al + 2 {
        return None;
    }
    let about = slice_to_vec(slice_subrange(p, 4 + dl, 4 + dl + al));
    let n = u16_from_le_bytes(slice_subrange(p, 4 + dl + al, 6 + dl + al)) as usize;
    let follows_region = slice_subrange(p, 6 + dl + al, p.len());
    match decode_follows(follows_region, n) {
        Option::None => None,
        Option::Some(follows) => Some(ItemType::Profile { display_name, about, follows }),
    }
}

/// Decode a byte string into an item, or report that it is not the wire
/// form of any item. The exact bytes given here — not a re-encoding —
/// remain the source of truth for whatever was decoded.
pub fn decode_item(b: &[u8]) -> (r: Option<Item>)
    ensures
        r is Some <==> spec_decode(b@) is Some,
        r matches Some(item) ==> spec_decode(b@) == Some(item@),
{
    if b.len() < 13 {
        return None;
    }
    let ts_image = u64_from_le_bytes(slice_subrange(b, 0, 8));
    let ts: i64 = ((ts_image as i128) - 0x8000_0000_0000_0000_i128) as i64;
    assert(ts == ts_of_bits(ts_image));
    let off_image = u32_from_le_bytes(slice_subrange(b, 8, 12));
    let off: i32 = ((off_image as i64) - 0x8000_0000_i64) as i32;
    assert(off == off_of_bits(off_image));
    let tag = b[12];
    let payload = slice_subrange(b, 13, b.len());
    let item_type: Option<ItemType> = if tag == 1 {
        decode_post(payload)
    } else if tag == 2 {
        decode_profile(payload)
    } else {
        Some(ItemType::Unknown { tag, rest: slice_to_vec(payload) })
    };
    match item_type {
        Option::None => None,
        Option::Some(t) => Some(Item { timestamp_ms_utc: ts, utc_offset_minutes: off, item_type: t }),
    }
}

/// A follows region that decodes does so to exactly `n` entries, all of
/// them well-formed, whose encoding is the region itself.
pub proof fn lemma_decode_follows_sound(p: Seq<u8>, n: nat)
    requires
        spec_decode_follows(p, n) is Some,
    ensures
        ({
            let fs = spec_decode_follows(p, n)->Some_0;
            &&& fs.len() == n
            &&& forall|i: int| 0 <= i < fs.len() ==> (#[trigger] fs[i]).wf()
            &&& spec_encode_follows(fs) == p
        }),
    decreases n,
{
    lemma_auto_spec_u16_to_from_le_bytes();
    if n == 0 {
        let fs = spec_decode_follows(p, n)->Some_0;
        assert(spec_encode_follows(fs) =~= p);
    } else {
        let user = p.subrange(0, 32);
        let dl = spec_u16_from_le_bytes(p.subrange(32, 34)) as int;
        let f = FollowV { user, display_name: p.subrange(34, 34 + dl) };
        let tail = p.subrange(34 + dl, p.len() as int);
        lemma_decode_follows_sound(tail, (n - 1) as nat);
        let rest = spec_decode_follows(tail, (n - 1) as nat)->Some_0;
        let fs = spec_decode_follows(p, n)->Some_0;
        assert(fs == seq![f] + rest);
        assert(fs[0] == f);
        assert(fs.drop_first() =~= rest);
        assert(f.wf());
        assert(spec_u16_to_le_bytes(f.display_name.len() as u16) == p.subrange(32, 34));
        assert(spec_encode_follow(f) =~= p.subrange(0, 34 + dl));
        assert(spec_encode_follows(fs) == spec_encode_follow(fs[0]) + spec_encode_follows(
            fs.drop_first(),
        ));
        assert(spec_encode_follows(fs) =~= p);
    }
}

/// A well-formed follows list decodes back from its own encoding.
pub proof fn lemma_encode_follows_complete(fs: Seq<FollowV>)
    requires
        forall|i: int| 0 <= i < fs.len() ==> (#[trigger] fs[i]).wf(),
    ensures
        spec_decode_follows(spec_encode_follows(fs), fs.len()) == Some(fs),
    decreases fs.len(),
{
    lemma_auto_spec_u16_to_from_le_bytes();
    let p = spec_encode_follows(fs);
    if fs.len() == 0 {
        assert(p =~= Seq::<u8>::empty());
    } else {
        let f = fs[0];
        let head = spec_encode_follow(f);
        let tail = spec_encode_follows(fs.drop_first());
        assert(p == head + tail);
        let dl = f.display_name.len() as int;
        assert(head.len() == 34 + dl);
        assert(p.subrange(0, 32) =~= f.user);
        assert(p.subrange(32, 34) =~= spec_u16_to_le_bytes(f.display_name.len() as u16));
        assert(spec_u16_from_le_bytes(p.subrange(32, 34)) as int == dl);
        assert(p.subrange(34, 34 + dl) =~= f.display_name);
        assert(p.subrange(34 + dl, p.len() as int) =~= tail);
        lemma_encode_follows_complete(fs.drop_first());
        let g = FollowV { user: p.subrange(0, 32), display_name: p.subrange(34, 34 + dl) };
        assert(g =~= f);
        assert(seq![f] + fs.drop_first() =~= fs);
    }
}

/// A post payload that decodes is the exact encoding of what it decodes
/// to, which is well-formed.
proof fn lemma_decode_post_sound(p: Seq<u8>)
    requires
        spec_decode_post(p) is Some,
    ensures
        ({
            let t = spec_decode_post(p)->Some_0;
            &&& t.wf()
            &&& t is Post
            &&& spec_encode_payload(t) == p
        }),
{
    lemma_auto_spec_u16_to_from_le_bytes();
    let tl = spec_u16_from_le_bytes(p.subrange(0, 2)) as int;
    let bl = spec_u16_from_le_bytes(p.subrange(2 + tl, 4 + tl)) as int;
    let t = spec_decode_post(p)->Some_0;
    let title = p.subrange(2, 2 + tl);
    let body = p.subrange(4 + tl, 4 + tl + bl);
    assert(spec_u16_to_le_bytes(title.len() as u16) == p.subrange(0, 2));
    assert(spec_u16_to_le_bytes(body.len() as u16) == p.subrange(2 + tl, 4 + tl));
    assert(spec_encode_payload(t) =~= p);
}

/// A profile payload that decodes is the exact encoding of what it
/// decodes to, which is well-formed.
proof fn lemma_decode_profile_sound(p: Seq<u8>)
    requires
        spec_decode_profile(p) is Some,
    ensures
        ({
            let t = spec_decode_profile(p)->Some_0;
            &&& t.wf()
            &&& t is Profile
            &&& spec_encode_payload(t) == p
        }),
{
    lemma_auto_spec_u16_to_from_le_bytes();
    let dl = spec_u16_from_le_bytes(p.subrange(0, 2)) as int;
    let al = spec_u16_from_le_bytes(p.subrange(2 + dl, 4 + dl)) as int;
    let n = spec_u16_from_le_bytes(p.subrange(4 + dl + al, 6 + dl + al)) as nat;
    let region = p.subrange(6 + dl + al, p.len() as int);
    lemma_decode_follows_sound(region, n);
    let t = spec_decode_profile(p)->Some_0;
    let display_name = p.subrange(2, 2 + dl);
    let about = p.subrange(4 + dl, 4 + dl + al);
    let follows = spec_decode_follows(region, n)->Some_0;
    assert(spec_u16_to_le_bytes(display_name.len() as u16) == p.subrange(0, 2));
    assert(spec_u16_to_le_bytes(about.len() as u16) == p.subrange(2 + dl, 4 + dl));
    assert(spec_u16_to_le_bytes(follows.len() as u16) == p.subrange(4 + dl + al, 6 + dl + al));
    assert(spec_encode_payload(t) =~= p);
}

/// Soundness of the wire form, the stored-bytes half of the round trip:
/// a byte string that decodes at all is exactly the encoding of the item
/// it decodes to. Re-encoding what was decoded reproduces the stored
/// bytes byte for byte — stored bytes are never transformed.
pub proof fn lemma_decode_encode_id(b: Seq<u8>)
    requires
        spec_decode(b) is Some,
    ensures
        ({
            let iv = spec_decode(b)->Some_0;
            &&& iv.wf()
            &&& spec_encode(iv) == b
        }),
{
    lemma_auto_spec_u64_to_from_le_bytes();
    lemma_auto_spec_u32_to_from_le_bytes();
    let iv = spec_decode(b)->Some_0;
    let u = spec_u64_from_le_bytes(b.subrange(0, 8));
    let w = spec_u32_from_le_bytes(b.subrange(8, 12));
    assert(ts_bits(ts_of_bits(u)) == u);
    assert(off_bits(off_of_bits(w)) == w);
    assert(spec_u64_to_le_bytes(ts_bits(iv.timestamp_ms_utc)) == b.subrange(0, 8));
    assert(spec_u32_to_le_bytes(off_bits(iv.utc_offset_minutes)) == b.subrange(8, 12));
    let payload = b.subrange(13, b.len() as int);
    let tag = b[12];
    if tag == 1 {
        lemma_decode_post_sound(payload);
    } else if tag == 2 {
        lemma_decode_profile_sound(payload);
    }
    assert(spec_tag_of(iv.item_type) == tag);
    assert(spec_encode_payload(iv.item_type) == payload);
    assert(spec_encode(iv) =~= b);
}

/// Completeness of the wire form, the other half of the round trip: a
/// well-formed item decodes back from its own encoding unchanged.
pub proof fn lemma_encode_decode_id(iv: ItemV)
    requires
        iv.wf(),
    ensures
        spec_decode(spec_encode(iv)) == Some(iv),
{
    lemma_auto_spec_u64_to_from_le_bytes();
    lemma_auto_spec_u32_to_from_le_bytes();
    lemma_auto_spec_u16_to_from_le_bytes();
    let b = spec_encode(iv);
    let eight = spec_u64_to_le_bytes(ts_bits(iv.timestamp_ms_utc));
    let four = spec_u32_to_le_bytes(off_bits(iv.utc_offset_minutes));
    let payload = spec_encode_payload(iv.item_type);
    assert(b.len() == 13 + payload.len());
    assert(b.subrange(0, 8) =~= eight);
    assert(b.subrange(8, 12) =~= four);
    assert(b[12] == spec_tag_of(iv.item_type));
    assert(b.subrange(13, b.len() as int) =~= payload);
    assert(ts_of_bits(ts_bits(iv.timestamp_ms_utc)) == iv.timestamp_ms_utc);
    assert(off_of_bits(off_bits(iv.utc_offset_minutes)) == iv.utc_offset_minutes);
    match iv.item_type {
        ItemTypeV::Post { title, body } => {
            let tl = title.len() as int;
            let bl = body.len() as int;
            assert(payload.subrange(0, 2) =~= spec_u16_to_le_bytes(title.len() as u16));
            assert(spec_u16_from_le_bytes(payload.subrange(0, 2)) as int == tl);
            assert(payload.subrange(2, 2 + tl) =~= title);
            assert(payload.subrange(2 + tl, 4 + tl) =~= spec_u16_to_le_bytes(body.len() as u16));
            assert(spec_u16_from_le_bytes(payload.subrange(2 + tl, 4 + tl)) as int == bl);
            assert(payload.len() == 4 + tl + bl);
            assert(payload.subrange(4 + tl, 4 + tl + bl) =~= body);
            assert(spec_decode_post(payload) == Some(iv.item_type));
        },
        ItemTypeV::Profile { display_name, about, follows } => {
            let dl = display_name.len() as int;
            let al = about.len() as int;
            let region = spec_encode_follows(follows);
            assert(payload.subrange(0, 2) =~= spec_u16_to_le_bytes(display_name.len() as u16));
            assert(spec_u16_from_le_bytes(payload.subrange(0, 2)) as int == dl);
            assert(payload.subrange(2, 2 + dl) =~= display_name);
            assert(payload.subrange(2 + dl, 4 + dl) =~= spec_u16_to_le_bytes(
                about.len() as u16,
            ));
            assert(spec_u16_from_le_bytes(payload.subrange(2 + dl, 4 + dl)) as int == al);
            assert(payload.subrange(4 + dl, 4 + dl + al) =~= about);
            assert(payload.subrange(4 + dl + al, 6 + dl + al) =~= spec_u16_to_le_bytes(
                follows.len() as u16,
            ));
            assert(spec_u16_from_le_bytes(payload.subrange(4 + dl + al, 6 + dl + al)) as int
                == follows.len() as int);
            assert(payload.subrange(6 + dl + al, payload.len() as int) =~= region);
            lemma_encode_follows_complete(follows);
            assert(spec_decode_profile(payload) == Some(iv.item_type));
        },
        ItemTypeV::Unknown { tag, rest } => {
            assert(payload =~= rest);
        },
    }
    assert(spec_decode(b)->Some_0 =~~= iv);
}

} // verus!
