//! The fingerprint stage: from decoded audio to a stored fingerprint.
//!
//! The surrounding program decodes each audio file to PCM and computes
//! the raw fingerprint words; this module encodes the words for lookup —
//! little-endian bytes, deflate-compressed, base64 — decides which items
//! need fingerprinting, and writes results back. A zero-byte file is a
//! placeholder and is skipped.

use std::io::Write;

use vstd::prelude::*;

use crate::error::Error;
use crate::model::Item;
use crate::store::{has_item, items_view, lacks_fingerprint_pred, CatalogStore, StoreVal};

verus! {

/// The little-endian byte at position `k` of a 32-bit word.
pub open spec fn le_byte(v: u32, k: int) -> u8 {
    (((v as int) / spec_pow256(k)) % 256) as u8
}

/// 256 raised to the given power.
pub open spec fn spec_pow256(k: int) -> int
    decreases k,
{
    if k <= 0 {
        1
    } else {
        256 * spec_pow256(k - 1)
    }
}

/// The little-endian byte stream of a word sequence: four bytes per
/// word, least significant first.
pub open spec fn le_bytes_of(fp: Seq<u32>) -> Seq<u8> {
    Seq::new(4 * fp.len(), |i: int| le_byte(fp[i / 4], i % 4))
}

/// What deflate compression (default settings) returns for a byte
/// stream; a function of the bytes alone.
pub uninterp spec fn zlib_deflate(b: Seq<u8>) -> Seq<u8>;

/// What standard, padded base64 returns for a byte stream; a function
/// of the bytes alone.
pub uninterp spec fn base64_standard(b: Seq<u8>) -> Seq<char>;

/// Relies on flate2's `ZlibEncoder` with the default compression level:
/// writing the bytes and finishing yields their deflate stream, a
/// function of the bytes alone. The encoder surfaces only sink errors,
/// and the in-memory sink cannot fail, so the call always succeeds.
#[verifier::external_body]
fn deflate_bytes(bytes: &Vec<u8>) -> (r: Vec<u8>)
    ensures
        r@ == zlib_deflate(bytes@),
{
    let mut encoder =
        flate2::write::ZlibEncoder::new(Vec::new(), flate2::Compression::default());
    encoder
        .write_all(bytes)
        .expect("writing to an in-memory sink cannot fail");
    encoder
        .finish()
        .expect("finishing onto an in-memory sink cannot fail")
}

/// Relies on base64's `Engine::encode` with the standard padded
/// alphabet: the encoding is a function of the bytes alone, four output
/// characters for every three input bytes, rounded up. The length bound
/// keeps the internal size arithmetic from overflowing.
#[verifier::external_body]
fn base64_bytes(bytes: &Vec<u8>) -> (r: String)
    requires
        bytes@.len() * 4 <= usize::MAX,
    ensures
        r@ == base64_standard(bytes@),
        r@.len() == 4 * ((bytes@.len() + 2) / 3),
{
    base64::Engine::encode(&base64::engine::general_purpose::STANDARD, bytes)
}

/// The four little-endian bytes of a word, least significant first.
fn push_le_bytes(out: &mut Vec<u8>, v: u32)
    ensures
        final(out)@ == old(out)@ + seq![le_byte(v, 0), le_byte(v, 1), le_byte(v, 2), le_byte(v, 3)],
{
    out.push((v % 256) as u8);
    out.push(((v / 256) % 256) as u8);
    out.push(((v / 65536) % 256) as u8);
    out.push(((v / 16777216) % 256) as u8);
    proof {
        assert(spec_pow256(0) == 1);
        assert(spec_pow256(1) == 256);
        assert(spec_pow256(2) == 65536);
        assert(spec_pow256(3) == 16777216);
        assert(out@ =~= old(out)@ + seq![
            le_byte(v, 0),
            le_byte(v, 1),
            le_byte(v, 2),
            le_byte(v, 3),
        ]);
    }
}

/// Encode raw fingerprint words for lookup: the words as little-endian
/// bytes, deflate-compressed, then base64 in the standard padded
/// alphabet. Succeeds exactly when the compressed stream is small
/// enough for the base64 size arithmetic.
pub fn encode_fingerprint(fp: &Vec<u32>) -> (r: Result<String, Error>)
    requires
        fp@.len() * 4 <= usize::MAX,
    ensures
        r matches Ok(s) ==> s@ == base64_standard(zlib_deflate(le_bytes_of(fp@))),
        r is Ok <==> zlib_deflate(le_bytes_of(fp@)).len() * 4 <= usize::MAX,
        r matches Err(e) ==> e is Serialization,
{
    let mut bytes: Vec<u8> = Vec::new();
    let mut i: usize = 0;
    proof {
        assert(bytes@ =~= le_bytes_of(fp@.subrange(0, 0)));
    }
    while i < fp.len()
        invariant
            fp@.len() * 4 <= usize::MAX,
            i <= fp@.len(),
            bytes@ =~= le_bytes_of(fp@.subrange(0, i as int)),
        decreases fp@.len() - i,
    {
        push_le_bytes(&mut bytes, fp[i]);
        proof {
            assert(bytes@ =~= le_bytes_of(fp@.subrange(0, i + 1)));
        }
        i += 1;
    }
    proof {
        assert(fp@.subrange(0, fp@.len() as int) =~= fp@);
    }
    let compressed = deflate_bytes(&bytes);
    if compressed.len() > usize::MAX / 4 {
        return Err(Error::Serialization(String::from_str("fingerprint too large to encode")));
    }
    Ok(base64_bytes(&compressed))
}

/// Whether the fingerprint stage touches an item at all: a zero-byte
/// file is a placeholder and is skipped.
pub fn should_fingerprint(item: &Item) -> (r: bool)
    ensures
        r == (item@.file_size > 0),
{
    item.file_size > 0
}

/// The items the fingerprint stage works through: every item when
/// forced, otherwise the items still lacking a fingerprint.
pub fn fingerprint_targets(store: &CatalogStore, force: bool) -> (r: Vec<Item>)
    ensures
        force ==> items_view(r@).to_multiset() == store@.items.to_multiset(),
        !force ==> items_view(r@).to_multiset() == store@.items.filter(
            lacks_fingerprint_pred(),
        ).to_multiset(),
        crate::store::items_sorted_by_path(items_view(r@)),
{
    if force {
        store.list_all_items()
    } else {
        store.list_items_without_fingerprints()
    }
}

/// Write a computed fingerprint onto the item: the encoded fingerprint
/// is stored, and the decoded duration replaces the tag-reported one
/// exactly when none was known or the run was forced.
pub fn apply_fingerprint_result(
    store: &mut CatalogStore,
    item: &Item,
    fingerprint: &str,
    duration_secs: u32,
    force: bool,
) -> (r: Result<(), Error>)
    requires
        old(store)@.wf(),
    ensures
        final(store)@.wf(),
        match r {
            Ok(()) => ({
                ||| (!has_item(old(store)@.items, item@.id) && final(store)@ == old(store)@)
                ||| (exists|i: int|
                    0 <= i < old(store)@.items.len() && (#[trigger] old(store)@.items[i]).id
                        == item@.id && final(store)@ == (StoreVal {
                        items: old(store)@.items.update(i, final(store)@.items[i]),
                        ..old(store)@
                    }) && final(store)@.items[i].fingerprint == Some(fingerprint@)
                        && final(store)@.items[i].duration_secs == (
                    if item@.duration_secs is None || force {
                        Some(duration_secs as int)
                    } else {
                        item@.duration_secs
                    }))
            }),
            Err(e) => final(store)@ == old(store)@ && e is Database && (
            crate::store::item_path_held_by_other(
                old(store)@.items,
                item@.file_path,
                item@.id,
            ) || !crate::store::item_refs_ok(
                item@,
                old(store)@.expressions,
                old(store)@.manifestations,
            )),
        },
{
    let mut updated = item.clone();
    updated.fingerprint = Some(fingerprint.to_owned());
    if item.duration_secs.is_none() || force {
        updated.duration_secs = Some(duration_secs);
    }
    updated.updated_at = crate::clock::now_millis();
    match store.update_item(&updated) {
        Ok(()) => {
            proof {
                if has_item(old(store)@.items, item@.id) {
                }
            }
            Ok(())
        },
        Err(e) => Err(e),
    }
}

} // verus!
