//! What a state export writes besides the chain state itself: the encoded
//! block hash, the offchain storage key the JSON goes under, and the file
//! name that the export is reported under.

use vstd::prelude::*;
use crate::types::{ascii_bytes, ascii_literal_bytes, copy_bytes, default_export_path};

verus! {

/// The SCALE encoding of a block hash, as `parity_scale_codec` writes it.
///
/// `Encode` for a fixed-size array of bytes writes the bytes themselves, in
/// order, with no length prefix (`encode_slice_no_len` in the crate's
/// `codec.rs`); the contract claims exactly that.
#[verifier::external_body]
pub(crate) fn encode_block_hash(hash: &[u8; 32]) -> (encoded: Vec<u8>)
    ensures
        encoded@ == hash@,
{
    parity_scale_codec::Encode::encode(hash)
}

/// Whether `bytes` is well-formed UTF-8, as `core::str::from_utf8` decides.
///
/// The standard library documents that `from_utf8` succeeds exactly on
/// well-formed UTF-8; the contract states it with vstd's definition of
/// well-formed UTF-8.
#[verifier::external_body]
fn is_valid_utf8(bytes: &[u8]) -> (r: bool)
    ensures
        r == vstd::utf8::valid_utf8(bytes@),
{
    core::str::from_utf8(bytes).is_ok()
}

/// The ASCII decimal digits of `n`, most significant first, with no leading
/// zero.
pub open spec fn decimal(n: nat) -> Seq<u8>
    decreases n,
{
    if n < 10 {
        seq![(n + 48) as u8]
    } else {
        decimal(n / 10).push((n % 10 + 48) as u8)
    }
}

/// The number that ASCII decimal digits stand for, most significant first.
pub open spec fn digits_value(s: Seq<u8>) -> nat
    decreases s.len(),
{
    if s.len() == 0 {
        0
    } else {
        digits_value(s.drop_last()) * 10 + (s.last() - 48) as nat
    }
}

/// Every byte is an ASCII decimal digit.
pub open spec fn all_digits(s: Seq<u8>) -> bool {
    forall|i: int| 0 <= i < s.len() ==> 48 <= #[trigger] s[i] <= 57
}

/// `decimal(n)` is the base-10 numeral of `n`: a non-empty run of ASCII
/// digits whose value is `n`, with no leading zero unless `n` is zero.
pub proof fn lemma_decimal_is_numeral(n: nat)
    ensures
        decimal(n).len() >= 1,
        all_digits(decimal(n)),
        digits_value(decimal(n)) == n,
        decimal(n)[0] == 48 ==> n == 0,
    decreases n,
{
    if n >= 10 {
        lemma_decimal_is_numeral(n / 10);
        let d = decimal(n);
        assert(d.drop_last() =~= decimal(n / 10));
        assert(d[0] == decimal(n / 10)[0]);
        assert(n / 10 * 10 + n % 10 == n);
        assert(d.last() == (n % 10 + 48) as u8);
        assert(digits_value(d) == digits_value(d.drop_last()) * 10 + (d.last() - 48) as nat);
    } else {
        let d = decimal(n);
        assert(d.drop_last() =~= Seq::<u8>::empty());
        assert(digits_value(d) == digits_value(d.drop_last()) * 10 + (d.last() - 48) as nat);
    }
}

/// The decimal representation of `n` in ASCII.
pub fn decimal_bytes(n: u32) -> (r: Vec<u8>)
    ensures
        r@ == decimal(n as nat),
        r@.len() >= 1,
        all_digits(r@),
        digits_value(r@) == n,
        r@[0] == 48 ==> n == 0,
    decreases n,
{
    proof {
        lemma_decimal_is_numeral(n as nat);
    }
    if n < 10 {
        let mut v: Vec<u8> = Vec::new();
        v.push(n as u8 + 48);
        assert(v@ =~= decimal(n as nat));
        v
    } else {
        let mut v = decimal_bytes(n / 10);
        v.push((n % 10) as u8 + 48);
        v
    }
}

fn append(dst: &mut Vec<u8>, src: &Vec<u8>)
    ensures
        final(dst)@ == old(dst)@ + src@,
{
    let mut i: usize = 0;
    while i < src.len()
        invariant
            i <= src.len(),
            dst@ == old(dst)@ + src@.take(i as int),
        decreases src.len() - i,
    {
        dst.push(src[i]);
        assert(src@.take(i + 1) =~= src@.take(i as int).push(src@[i as int]));
        i += 1;
    }
    assert(src@.take(src.len() as int) =~= src@);
}

/// The offchain storage key an export of `block_number` is written under:
/// `state_export::` followed by the block number in decimal.
pub open spec fn export_storage_key_spec(block_number: u32) -> Seq<u8> {
    ascii_bytes("state_export::"@) + decimal(block_number as nat)
}

/// The directory an export names its file after: the configured path when
/// it is UTF-8, `/tmp/chain_state` otherwise.
pub open spec fn export_directory(export_path: Seq<u8>) -> Seq<u8> {
    if vstd::utf8::valid_utf8(export_path) {
        export_path
    } else {
        default_export_path()
    }
}

/// The file name an export of `block_number` is reported under:
/// `<directory>/chain_state_block_<block_number>.json`.
pub open spec fn export_file_name_spec(export_path: Seq<u8>, block_number: u32) -> Seq<u8> {
    export_directory(export_path) + ascii_bytes("/chain_state_block_"@) + decimal(
        block_number as nat,
    ) + ascii_bytes(".json"@)
}

/// The offchain storage key under which the JSON of the export of
/// `block_number` is written.
pub fn export_storage_key(block_number: u32) -> (r: Vec<u8>)
    ensures
        r@ == export_storage_key_spec(block_number),
        r@.take(14) == ascii_bytes("state_export::"@),
        all_digits(r@.skip(14)),
        digits_value(r@.skip(14)) == block_number,
{
    proof {
        reveal_strlit("state_export::");
    }
    let mut key = ascii_literal_bytes("state_export::");
    let digits = decimal_bytes(block_number);
    append(&mut key, &digits);
    assert(key@.take(14) =~= ascii_bytes("state_export::"@));
    assert(key@.skip(14) =~= digits@);
    key
}

/// The name of the file the export of `block_number` stands for.
pub fn export_file_name(export_path: &Vec<u8>, block_number: u32) -> (r: Vec<u8>)
    ensures
        r@ == export_file_name_spec(export_path@, block_number),
{
    proof {
        reveal_strlit("/tmp/chain_state");
        reveal_strlit("/chain_state_block_");
        reveal_strlit(".json");
    }
    let mut name = if is_valid_utf8(export_path.as_slice()) {
        copy_bytes(export_path)
    } else {
        ascii_literal_bytes("/tmp/chain_state")
    };
    append(&mut name, &ascii_literal_bytes("/chain_state_block_"));
    append(&mut name, &decimal_bytes(block_number));
    append(&mut name, &ascii_literal_bytes(".json"));
    name
}

/// The offchain storage key of block `b` is `state_export::` followed by
/// digits that read back as `b`; so two different blocks never share a key.
pub proof fn lemma_storage_key_names_block(b: u32, c: u32)
    ensures
        export_storage_key_spec(b).take(14) == ascii_bytes("state_export::"@),
        all_digits(export_storage_key_spec(b).skip(14)),
        digits_value(export_storage_key_spec(b).skip(14)) == b,
        b != c ==> export_storage_key_spec(b) != export_storage_key_spec(c),
{
    reveal_strlit("state_export::");
    lemma_decimal_is_numeral(b as nat);
    lemma_decimal_is_numeral(c as nat);
    assert(export_storage_key_spec(b).take(14) =~= ascii_bytes("state_export::"@));
    assert(export_storage_key_spec(b).skip(14) =~= decimal(b as nat));
    assert(export_storage_key_spec(c).skip(14) =~= decimal(c as nat));
}

} // verus!
