//! Byte-level helpers: hashing into the field, per-node salts, and a byte-size
//! pretty-printer. The BLAKE3 digest itself is named, not restated.

use vstd::prelude::*;
use vstd::string::StringSliceAdditionalSpecFns;
use crate::field::{fe_from_le_bytes_mod_order, field_order, le_bytes_value, Fe};

verus! {

/// The 32-byte BLAKE3 digest of a byte string, named; it depends on the input alone.
pub uninterp spec fn blake3_of(data: Seq<u8>) -> Seq<u8>;

/// Relies on `blake3::hash`: a deterministic 32-byte digest of the input.
#[verifier::external_body]
pub(crate) fn blake3_hash(data: &[u8]) -> (r: [u8; 32])
    ensures
        r@ == blake3_of(data@),
{
    *blake3::hash(data).as_bytes()
}

/// A byte string widened or cut to 64 bytes, little-endian value preserved up to the cut.
pub open spec fn wide64(bytes: Seq<u8>) -> Seq<u8> {
    if bytes.len() <= 64 {
        bytes + Seq::new((64 - bytes.len()) as nat, |i: int| 0u8)
    } else {
        bytes.subrange(0, 64)
    }
}

/// What mapping a byte string into the field through a 64-byte buffer yields.
pub open spec fn bytes_to_field(bytes: Seq<u8>) -> int {
    le_bytes_value(wide64(bytes)) % field_order()
}

/// What hashing `tag ‖ data` with BLAKE3 and mapping into the field yields.
pub open spec fn hash_to_field(tag: Seq<u8>, data: Seq<u8>) -> int {
    bytes_to_field(blake3_of(tag + data))
}

/// Map arbitrary bytes to a field element through a 512-bit buffer (little-endian).
pub fn fr_from_le_bytes_mod_p(bytes: &[u8]) -> (r: Fe)
    ensures
        r@ == bytes_to_field(bytes@),
{
    let mut wide: Vec<u8> = Vec::new();
    let n = bytes.len();
    let take = if n < 64 {
        n
    } else {
        64
    };
    let mut i: usize = 0;
    while i < take
        invariant
            i <= take,
            take <= bytes.len(),
            take <= 64,
            wide@ =~= bytes@.subrange(0, i as int),
        decreases take - i,
    {
        wide.push(bytes[i]);
        i = i + 1;
    }
    while wide.len() < 64
        invariant
            wide@.len() >= take,
            wide@.len() <= 64,
            wide@ =~= bytes@.subrange(0, take as int) + Seq::new(
                (wide@.len() - take) as nat,
                |j: int| 0u8,
            ),
        decreases 64 - wide.len(),
    {
        wide.push(0u8);
    }
    proof {
        if bytes@.len() <= 64 {
            assert(bytes@.subrange(0, take as int) =~= bytes@);
        }
        assert(wide@ =~= wide64(bytes@));
    }
    fe_from_le_bytes_mod_order(wide.as_slice())
}

/// Hash `tag ‖ data` with BLAKE3, then map the digest into the field.
pub fn fr_from_hash(tag: &[u8], data: &[u8]) -> (r: Fe)
    ensures
        r@ == hash_to_field(tag@, data@),
{
    let mut msg: Vec<u8> = Vec::new();
    extend_bytes(&mut msg, tag);
    extend_bytes(&mut msg, data);
    proof {
        assert(msg@ =~= tag@ + data@);
    }
    let digest = blake3_hash(msg.as_slice());
    fr_from_le_bytes_mod_p(digest.as_slice())
}

/// The `n`-byte little-endian encoding of `x` (truncating above 256^n).
pub open spec fn le_bytes_of(x: nat, n: nat) -> Seq<u8>
    decreases n,
{
    if n == 0 {
        Seq::empty()
    } else {
        seq![(x % 256) as u8] + le_bytes_of(x / 256, (n - 1) as nat)
    }
}

/// The 8-byte little-endian encoding of a machine word.
pub fn u64_to_le_bytes(x: u64) -> (r: Vec<u8>)
    ensures
        r@ == le_bytes_of(x as nat, 8),
{
    let mut out: Vec<u8> = Vec::new();
    let mut cur: u64 = x;
    let mut i: usize = 0;
    while i < 8
        invariant
            i <= 8,
            out@.len() == i,
            out@ + le_bytes_of(cur as nat, (8 - i) as nat) =~= le_bytes_of(x as nat, 8),
        decreases 8 - i,
    {
        out.push((cur % 256) as u8);
        cur = cur / 256;
        i = i + 1;
    }
    proof {
        assert(out@ =~= le_bytes_of(x as nat, 8));
    }
    out
}

/// What the per-node salt hashes down to.
pub open spec fn salt_of(level: nat, node_idx: nat, seed: Seq<u8>) -> int {
    bytes_to_field(
        blake3_of("MT-SALT".spec_bytes() + le_bytes_of(level, 8) + le_bytes_of(node_idx, 8) + seed),
    )
}

/// Derive a per-node salt for tree hashing from the level, the node index and a seed.
pub fn salt_for_node(level: usize, node_idx: usize, seed: &[u8; 32]) -> (r: Fe)
    ensures
        r@ == salt_of(level as nat, node_idx as nat, seed@),
{
    let mut msg: Vec<u8> = Vec::new();
    extend_bytes(&mut msg, "MT-SALT".as_bytes());
    let lv = u64_to_le_bytes(level as u64);
    extend_bytes(&mut msg, lv.as_slice());
    let ni = u64_to_le_bytes(node_idx as u64);
    extend_bytes(&mut msg, ni.as_slice());
    extend_bytes(&mut msg, seed.as_slice());
    proof {
        assert(msg@ =~= "MT-SALT".spec_bytes() + le_bytes_of(level as nat, 8) + le_bytes_of(
            node_idx as nat,
            8,
        ) + seed@);
    }
    let digest = blake3_hash(msg.as_slice());
    fr_from_le_bytes_mod_p(digest.as_slice())
}

/// The decimal digits of `x`, most significant first.
pub open spec fn dec_of(x: nat) -> Seq<u8>
    decreases x,
{
    if x < 10 {
        seq![(48 + x) as u8]
    } else {
        dec_of(x / 10) + seq![(48 + x % 10) as u8]
    }
}

/// The decimal digits of a machine word, as ASCII bytes.
pub fn dec_bytes(x: u64) -> (r: Vec<u8>)
    ensures
        r@ == dec_of(x as nat),
    decreases x,
{
    if x < 10 {
        let mut v: Vec<u8> = Vec::new();
        v.push((48 + x) as u8);
        proof {
            assert(v@ =~= dec_of(x as nat));
        }
        v
    } else {
        let mut v = dec_bytes(x / 10);
        v.push((48 + x % 10) as u8);
        proof {
            assert(v@ =~= dec_of(x as nat));
        }
        v
    }
}

/// What the arity-labelled domain-separation tag hashes down to.
pub open spec fn ds_tag_of(arity: nat) -> int {
    hash_to_field("MT-DS".spec_bytes(), "arity-".spec_bytes() + dec_of(arity))
}

/// Domain-separation tag for tree hashing based on arity.
pub fn ds_tag_for_arity(arity: usize) -> (r: Fe)
    ensures
        r@ == ds_tag_of(arity as nat),
{
    let mut data: Vec<u8> = Vec::new();
    extend_bytes(&mut data, "arity-".as_bytes());
    let digits = dec_bytes(arity as u64);
    extend_bytes(&mut data, digits.as_slice());
    proof {
        assert(data@ =~= "arity-".spec_bytes() + dec_of(arity as nat));
    }
    fr_from_hash("MT-DS".as_bytes(), data.as_slice())
}

/// Round `q / d` to the nearest integer, ties to even.
pub open spec fn round_half_even(q: nat, d: nat) -> nat {
    let r = q / d;
    let rem = q % d;
    if 2 * rem > d {
        r + 1
    } else if 2 * rem == d && r % 2 == 1 {
        r + 1
    } else {
        r
    }
}

pub open spec fn digit_char(d: nat) -> char {
    if d == 0 {
        '0'
    } else if d == 1 {
        '1'
    } else if d == 2 {
        '2'
    } else if d == 3 {
        '3'
    } else if d == 4 {
        '4'
    } else if d == 5 {
        '5'
    } else if d == 6 {
        '6'
    } else if d == 7 {
        '7'
    } else if d == 8 {
        '8'
    } else {
        '9'
    }
}

/// The decimal digits of `x`, as characters.
pub open spec fn dec_chars(x: nat) -> Seq<char>
    decreases x,
{
    if x < 10 {
        seq![digit_char(x)]
    } else {
        dec_chars(x / 10) + seq![digit_char(x % 10)]
    }
}

/// A byte count rendered with two rounded decimals against the nearest binary unit.
pub open spec fn size_chars(n: nat) -> Seq<char> {
    let d: nat = if n >= 0x40000000 {
        0x40000000
    } else if n >= 0x100000 {
        0x100000
    } else if n >= 0x400 {
        0x400
    } else {
        1
    };
    let suffix: Seq<char> = if n >= 0x40000000 {
        seq!['G', 'i', 'B']
    } else if n >= 0x100000 {
        seq!['M', 'i', 'B']
    } else if n >= 0x400 {
        seq!['K', 'i', 'B']
    } else {
        seq!['B']
    };
    let h = round_half_even(n * 100, d);
    dec_chars(h / 100) + seq!['.', digit_char((h % 100) / 10), digit_char(h % 10), ' '] + suffix
}

fn push_digit(s: &mut String, d: u64)
    requires
        d < 10,
    ensures
        final(s)@ == old(s)@ + seq![digit_char(d as nat)],
{
    proof {
        reveal_strlit("0");
        reveal_strlit("1");
        reveal_strlit("2");
        reveal_strlit("3");
        reveal_strlit("4");
        reveal_strlit("5");
        reveal_strlit("6");
        reveal_strlit("7");
        reveal_strlit("8");
        reveal_strlit("9");
    }
    if d == 0 {
        s.append("0");
    } else if d == 1 {
        s.append("1");
    } else if d == 2 {
        s.append("2");
    } else if d == 3 {
        s.append("3");
    } else if d == 4 {
        s.append("4");
    } else if d == 5 {
        s.append("5");
    } else if d == 6 {
        s.append("6");
    } else if d == 7 {
        s.append("7");
    } else if d == 8 {
        s.append("8");
    } else {
        s.append("9");
    }
    proof {
        assert(s@ =~= old(s)@ + seq![digit_char(d as nat)]);
    }
}

fn push_decimal(s: &mut String, x: u64)
    ensures
        final(s)@ == old(s)@ + dec_chars(x as nat),
    decreases x,
{
    if x < 10 {
        push_digit(s, x);
    } else {
        push_decimal(s, x / 10);
        push_digit(s, x % 10);
        proof {
            assert(s@ =~= old(s)@ + dec_chars(x as nat));
        }
    }
}

/// A byte count, displayed against binary units.
#[derive(Clone, Copy, Debug, PartialEq, Eq, Structural)]
pub struct ByteSize(pub usize);

impl ByteSize {
    /// Render the count with two rounded decimals and the nearest binary unit.
    pub fn display_string(&self) -> (r: String)
        ensures
            r@ == size_chars(self.0 as nat),
    {
        let n = self.0;
        let q: u128 = n as u128 * 100;
        let d: u128 = if n >= 0x40000000 {
            0x40000000
        } else if n >= 0x100000 {
            0x100000
        } else if n >= 0x400 {
            0x400
        } else {
            1
        };
        let r0 = q / d;
        let rem = q % d;
        let h: u128 = if 2 * rem > d {
            r0 + 1
        } else if 2 * rem == d && r0 % 2 == 1 {
            r0 + 1
        } else {
            r0
        };
        assert(h == round_half_even((n as nat) * 100, d as nat));
        assert(h <= q / d + 1 && q / d * d <= q) by {
            vstd::arithmetic::div_mod::lemma_fundamental_div_mod(q as int, d as int);
        }
        let whole = (h / 100) as u64;
        let f10 = ((h % 100) / 10) as u64;
        let f1 = (h % 10) as u64;
        let mut out = String::new();
        push_decimal(&mut out, whole);
        proof {
            reveal_strlit(".");
            reveal_strlit(" ");
            reveal_strlit("GiB");
            reveal_strlit("MiB");
            reveal_strlit("KiB");
            reveal_strlit("B");
        }
        out.append(".");
        push_digit(&mut out, f10);
        push_digit(&mut out, f1);
        out.append(" ");
        if n >= 0x40000000 {
            out.append("GiB");
        } else if n >= 0x100000 {
            out.append("MiB");
        } else if n >= 0x400 {
            out.append("KiB");
        } else {
            out.append("B");
        }
        proof {
            assert(out@ =~= size_chars(n as nat));
        }
        out
    }
}

/// Append a byte slice to a vector.
pub fn extend_bytes(dst: &mut Vec<u8>, src: &[u8])
    ensures
        final(dst)@ == old(dst)@ + src@,
{
    let mut i: usize = 0;
    while i < src.len()
        invariant
            i <= src.len(),
            dst@ =~= old(dst)@ + src@.subrange(0, i as int),
        decreases src.len() - i,
    {
        dst.push(src[i]);
        i = i + 1;
    }
    proof {
        assert(dst@ =~= old(dst)@ + src@);
    }
}

} // verus!
