//! Opaque 128-bit identities for the catalog's first-class entities.
//!
//! Every entity carries a globally unique random identity; identities are
//! total, so unequal identities denote distinct entities. Each entity kind
//! gets its own type so that identities cannot be mixed up.

use vstd::prelude::*;

use crate::text::spec_digit_char;

verus! {

/// Relies on `uuid::Uuid::new_v4` and `Uuid::as_u128`: a freshly drawn
/// random 128-bit identity. Nothing is promised of the value.
#[verifier::external_body]
pub fn fresh_id_bits() -> u128 {
    uuid::Uuid::new_v4().as_u128()
}

/// The lowercase hexadecimal digit character for a value below sixteen.
pub open spec fn spec_hex_char(d: int) -> char {
    if d < 10 {
        spec_digit_char(d)
    } else {
        (('a' as u32) + (d - 10) as u32) as char
    }
}

fn hex_char(d: u32) -> (r: char)
    requires
        d < 16,
    ensures
        r == spec_hex_char(d as int),
{
    if d < 10 {
        ((('0' as u32) + d) as u8) as char
    } else {
        ((('a' as u32) + (d - 10)) as u8) as char
    }
}

/// The lowercase hexadecimal rendering of `n`, zero-padded to `len` digits;
/// only the lowest `len` digits are rendered.
pub open spec fn spec_hex_fixed(n: int, len: nat) -> Seq<char>
    decreases len,
{
    if len == 0 {
        Seq::empty()
    } else {
        spec_hex_fixed(n / 16, (len - 1) as nat).push(spec_hex_char(n % 16))
    }
}

fn hex_fixed(n: u128, len: usize) -> (r: Vec<char>)
    ensures
        r@ == spec_hex_fixed(n as int, len as nat),
    decreases len,
{
    if len == 0 {
        let r: Vec<char> = Vec::new();
        proof {
            assert(r@ =~= spec_hex_fixed(n as int, 0));
        }
        r
    } else {
        let mut r = hex_fixed(n / 16, len - 1);
        r.push(hex_char((n % 16) as u32));
        r
    }
}

/// The canonical hyphenated rendering of a 128-bit identity: 32 lowercase
/// hexadecimal digits in five groups of 8, 4, 4, 4, and 12.
pub open spec fn spec_id_text(bits: int) -> Seq<char> {
    let h = spec_hex_fixed(bits, 32);
    h.subrange(0, 8) + seq!['-'] + h.subrange(8, 12) + seq!['-'] + h.subrange(12, 16)
        + seq!['-'] + h.subrange(16, 20) + seq!['-'] + h.subrange(20, 32)
}

proof fn lemma_hex_fixed_len(n: int, len: nat)
    ensures
        spec_hex_fixed(n, len).len() == len,
    decreases len,
{
    if len > 0 {
        lemma_hex_fixed_len(n / 16, (len - 1) as nat);
    }
}

/// Render a 128-bit identity in the canonical hyphenated form.
pub fn id_text(bits: u128) -> (r: String)
    ensures
        r@ == spec_id_text(bits as int),
        r@.len() == 36,
{
    let h = hex_fixed(bits, 32);
    proof {
        lemma_hex_fixed_len(bits as int, 32);
    }
    let mut out: Vec<char> = Vec::new();
    let mut i: usize = 0;
    while i < 32
        invariant
            h@.len() == 32,
            i <= 32,
            out@.len() == i + (if i > 20 {
                4int
            } else if i > 16 {
                3int
            } else if i > 12 {
                2int
            } else if i > 8 {
                1int
            } else {
                0int
            }),
            out@ == {
                let full = h@.subrange(0, 8) + seq!['-'] + h@.subrange(8, 12) + seq!['-']
                    + h@.subrange(12, 16) + seq!['-'] + h@.subrange(16, 20) + seq!['-']
                    + h@.subrange(20, 32);
                full.subrange(0, out@.len() as int)
            },
        decreases 32 - i,
    {
        if i == 8 || i == 12 || i == 16 || i == 20 {
            out.push('-');
            proof {
                let full = h@.subrange(0, 8) + seq!['-'] + h@.subrange(8, 12) + seq!['-']
                    + h@.subrange(12, 16) + seq!['-'] + h@.subrange(16, 20) + seq!['-']
                    + h@.subrange(20, 32);
                assert(out@ =~= full.subrange(0, out@.len() as int));
            }
        }
        out.push(h[i]);
        proof {
            let full = h@.subrange(0, 8) + seq!['-'] + h@.subrange(8, 12) + seq!['-']
                + h@.subrange(12, 16) + seq!['-'] + h@.subrange(16, 20) + seq!['-']
                + h@.subrange(20, 32);
            assert(out@ =~= full.subrange(0, out@.len() as int));
        }
        i += 1;
    }
    proof {
        let full = h@.subrange(0, 8) + seq!['-'] + h@.subrange(8, 12) + seq!['-'] + h@.subrange(
            12,
            16,
        ) + seq!['-'] + h@.subrange(16, 20) + seq!['-'] + h@.subrange(20, 32);
        assert(full.len() == 36);
        assert(out@ =~= full);
    }
    crate::text::string_from_chars(&out)
}

/// Unique identifier for a musical work.
#[derive(Debug, Clone, Copy, PartialEq, Eq, Structural, Hash)]
pub struct WorkId {
    pub bits: u128,
}

impl WorkId {
    /// Draw a fresh random identity.
    pub fn new() -> WorkId {
        WorkId { bits: fresh_id_bits() }
    }

    /// The identity with the given bits.
    pub fn from_bits(bits: u128) -> (r: WorkId)
        ensures
            r.bits == bits,
    {
        WorkId { bits }
    }

    /// The raw 128 bits of this identity.
    pub fn as_bits(&self) -> (r: u128)
        ensures
            r == self.bits,
    {
        self.bits
    }

    /// The canonical hyphenated text of this identity.
    pub fn to_text(&self) -> (r: String)
        ensures
            r@ == spec_id_text(self.bits as int),
            r@.len() == 36,
    {
        id_text(self.bits)
    }
}

/// Unique identifier for a performance or recording.
#[derive(Debug, Clone, Copy, PartialEq, Eq, Structural, Hash)]
pub struct ExpressionId {
    pub bits: u128,
}

impl ExpressionId {
    /// Draw a fresh random identity.
    pub fn new() -> ExpressionId {
        ExpressionId { bits: fresh_id_bits() }
    }

    /// The identity with the given bits.
    pub fn from_bits(bits: u128) -> (r: ExpressionId)
        ensures
            r.bits == bits,
    {
        ExpressionId { bits }
    }

    /// The raw 128 bits of this identity.
    pub fn as_bits(&self) -> (r: u128)
        ensures
            r == self.bits,
    {
        self.bits
    }

    /// The canonical hyphenated text of this identity.
    pub fn to_text(&self) -> (r: String)
        ensures
            r@ == spec_id_text(self.bits as int),
            r@.len() == 36,
    {
        id_text(self.bits)
    }
}

/// Unique identifier for a release.
#[derive(Debug, Clone, Copy, PartialEq, Eq, Structural, Hash)]
pub struct ManifestationId {
    pub bits: u128,
}

impl ManifestationId {
    /// Draw a fresh random identity.
    pub fn new() -> ManifestationId {
        ManifestationId { bits: fresh_id_bits() }
    }

    /// The identity with the given bits.
    pub fn from_bits(bits: u128) -> (r: ManifestationId)
        ensures
            r.bits == bits,
    {
        ManifestationId { bits }
    }

    /// The raw 128 bits of this identity.
    pub fn as_bits(&self) -> (r: u128)
        ensures
            r == self.bits,
    {
        self.bits
    }

    /// The canonical hyphenated text of this identity.
    pub fn to_text(&self) -> (r: String)
        ensures
            r@ == spec_id_text(self.bits as int),
            r@.len() == 36,
    {
        id_text(self.bits)
    }
}

/// Unique identifier for a single audio file.
#[derive(Debug, Clone, Copy, PartialEq, Eq, Structural, Hash)]
pub struct ItemId {
    pub bits: u128,
}

impl ItemId {
    /// Draw a fresh random identity.
    pub fn new() -> ItemId {
        ItemId { bits: fresh_id_bits() }
    }

    /// The identity with the given bits.
    pub fn from_bits(bits: u128) -> (r: ItemId)
        ensures
            r.bits == bits,
    {
        ItemId { bits }
    }

    /// The raw 128 bits of this identity.
    pub fn as_bits(&self) -> (r: u128)
        ensures
            r == self.bits,
    {
        self.bits
    }

    /// The canonical hyphenated text of this identity.
    pub fn to_text(&self) -> (r: String)
        ensures
            r@ == spec_id_text(self.bits as int),
            r@.len() == 36,
    {
        id_text(self.bits)
    }
}

/// Unique identifier for an artist.
#[derive(Debug, Clone, Copy, PartialEq, Eq, Structural, Hash)]
pub struct ArtistId {
    pub bits: u128,
}

impl ArtistId {
    /// Draw a fresh random identity.
    pub fn new() -> ArtistId {
        ArtistId { bits: fresh_id_bits() }
    }

    /// The identity with the given bits.
    pub fn from_bits(bits: u128) -> (r: ArtistId)
        ensures
            r.bits == bits,
    {
        ArtistId { bits }
    }

    /// The raw 128 bits of this identity.
    pub fn as_bits(&self) -> (r: u128)
        ensures
            r == self.bits,
    {
        self.bits
    }

    /// The canonical hyphenated text of this identity.
    pub fn to_text(&self) -> (r: String)
        ensures
            r@ == spec_id_text(self.bits as int),
            r@.len() == 36,
    {
        id_text(self.bits)
    }
}

} // verus!
