//! Digests: SHA-256 in lower-case hex, and the fingerprint of the migration
//! source, which changes whenever a row that the migration reads or a legacy
//! JSON file changes.

use vstd::prelude::*;
use vstd::utf8::encode_utf8;
use sha2::Digest;
use crate::text::string_of;

verus! {

/// The SHA-256 digest of a byte sequence.
pub uninterp spec fn sha256_of(bytes: Seq<u8>) -> Seq<u8>;

/// `sha2::Sha256::digest`: the digest depends on the bytes alone and is 32
/// bytes long; its value is named, not stated.
#[verifier::external_body]
fn sha256_digest(bytes: &[u8]) -> (r: Vec<u8>)
    ensures
        r@ == sha256_of(bytes@),
        r@.len() == 32,
{
    sha2::Sha256::digest(bytes).to_vec()
}

/// The lower-case hex digit for `n` (0 to 15).
pub open spec fn hex_digit(n: int) -> char {
    if n < 10 {
        (48 + n) as char
    } else {
        (87 + n) as char
    }
}

/// Lower-case hex of bytes, two digits per byte, high nibble first.
pub open spec fn hex_of(bytes: Seq<u8>) -> Seq<char>
    decreases bytes.len(),
{
    if bytes.len() == 0 {
        Seq::empty()
    } else {
        hex_of(bytes.drop_last()) + seq![hex_digit((bytes.last() / 16) as int), hex_digit((bytes.last() % 16) as int)]
    }
}

fn hex_digit_exec(n: u8) -> (c: char)
    requires
        n < 16,
    ensures
        c == hex_digit(n as int),
{
    if n < 10 {
        (48 + n) as char
    } else {
        (87 + n) as char
    }
}

/// Lower-case hex of bytes.
pub fn lower_hex(bytes: &[u8]) -> (r: String)
    ensures
        r@ == hex_of(bytes@),
{
    let mut out: Vec<char> = Vec::new();
    let mut i: usize = 0;
    assert(bytes@.take(0) =~= Seq::<u8>::empty());
    while i < bytes.len()
        invariant
            i <= bytes.len(),
            out@ == hex_of(bytes@.take(i as int)),
        decreases bytes.len() - i,
    {
        let b = bytes[i];
        let ghost prev = out@;
        out.push(hex_digit_exec(b / 16));
        out.push(hex_digit_exec(b % 16));
        assert(bytes@.take(i + 1).drop_last() =~= bytes@.take(i as int));
        assert(out@ =~= prev + seq![hex_digit((b / 16) as int), hex_digit((b % 16) as int)]);
        i = i + 1;
    }
    assert(bytes@.take(bytes.len() as int) =~= bytes@);
    string_of(out.as_slice())
}

/// The digest recorded for a file's contents: SHA-256 in lower-case hex.
pub fn file_digest(contents: &[u8]) -> (r: String)
    ensures
        r@ == hex_of(sha256_of(contents@)),
{
    let d = sha256_digest(contents);
    lower_hex(d.as_slice())
}

/// `n` as `k` little-endian bytes.
pub open spec fn le_bytes(n: nat, k: nat) -> Seq<u8>
    decreases k,
{
    if k == 0 {
        Seq::empty()
    } else {
        seq![(n % 256) as u8] + le_bytes(n / 256, (k - 1) as nat)
    }
}

fn push_le_bytes(out: &mut Vec<u8>, n: u64)
    ensures
        final(out)@ == old(out)@ + le_bytes(n as nat, 8),
{
    let mut m = n;
    let mut k: usize = 0;
    while k < 8
        invariant
            k <= 8,
            out@ + le_bytes(m as nat, (8 - k) as nat) == old(out)@ + le_bytes(n as nat, 8),
        decreases 8 - k,
    {
        let ghost prev = out@;
        out.push((m % 256) as u8);
        assert(le_bytes(m as nat, (8 - k) as nat) == seq![(m % 256) as u8] + le_bytes((m / 256) as nat, (8 - k - 1) as nat));
        assert(out@ + le_bytes((m / 256) as nat, (8 - k - 1) as nat) =~= prev + le_bytes(m as nat, (8 - k) as nat));
        m = m / 256;
        k = k + 1;
    }
    assert(out@ + le_bytes(m as nat, 0) =~= out@);
}

fn push_bytes(out: &mut Vec<u8>, b: &[u8])
    ensures
        final(out)@ == old(out)@ + b@,
{
    let mut i: usize = 0;
    while i < b.len()
        invariant
            i <= b.len(),
            out@ == old(out)@ + b@.take(i as int),
        decreases b.len() - i,
    {
        out.push(b[i]);
        i = i + 1;
        assert(out@ =~= old(out)@ + b@.take(i as int));
    }
    assert(b@.take(b.len() as int) =~= b@);
}

/// The UTF-8 bytes of a string.
pub open spec fn bytes_of(s: String) -> Seq<u8> {
    encode_utf8(s@)
}

/// Each value as its byte length (eight bytes, little-endian) and its bytes.
pub open spec fn framed_values(values: Seq<String>) -> Seq<u8>
    decreases values.len(),
{
    if values.len() == 0 {
        Seq::empty()
    } else {
        framed_values(values.drop_last()) + le_bytes(bytes_of(values.last()).len(), 8) + bytes_of(values.last())
    }
}

/// Each table as its name followed by its framed values.
pub open spec fn framed_tables(tables: Seq<(String, Vec<String>)>) -> Seq<u8>
    decreases tables.len(),
{
    if tables.len() == 0 {
        Seq::empty()
    } else {
        framed_tables(tables.drop_last()) + bytes_of(tables.last().0) + framed_values(tables.last().1@)
    }
}

/// Each legacy file as its name followed by its digest, where it exists.
pub open spec fn framed_files(files: Seq<(String, Option<String>)>) -> Seq<u8>
    decreases files.len(),
{
    if files.len() == 0 {
        Seq::empty()
    } else {
        framed_files(files.drop_last()) + bytes_of(files.last().0) + match files.last().1 {
            Some(d) => bytes_of(d),
            None => Seq::empty(),
        }
    }
}

fn frame_values(out: &mut Vec<u8>, values: &[String])
    ensures
        final(out)@ == old(out)@ + framed_values(values@),
{
    let mut i: usize = 0;
    assert(values@.take(0) =~= Seq::<String>::empty());
    while i < values.len()
        invariant
            i <= values.len(),
            out@ == old(out)@ + framed_values(values@.take(i as int)),
        decreases values.len() - i,
    {
        let ghost prev = out@;
        let b = values[i].as_str().as_bytes();
        push_le_bytes(out, b.len() as u64);
        push_bytes(out, b);
        assert(values@.take(i + 1).drop_last() =~= values@.take(i as int));
        assert(values@.take(i + 1).last() == values@[i as int]);
        assert(out@ =~= old(out)@ + framed_values(values@.take(i + 1)));
        i = i + 1;
    }
    assert(values@.take(values.len() as int) =~= values@);
}

/// The bytes that the migration source fingerprint digests: each table the
/// migration reads, by name, with every column value of every row framed by
/// its length, then each legacy JSON file by name with its digest where the
/// file exists.
pub fn migration_source_frame(tables: &[(String, Vec<String>)], files: &[(String, Option<String>)]) -> (r: Vec<u8>)
    ensures
        r@ == framed_tables(tables@) + framed_files(files@),
{
    let mut out: Vec<u8> = Vec::new();
    let mut i: usize = 0;
    assert(tables@.take(0) =~= Seq::<(String, Vec<String>)>::empty());
    while i < tables.len()
        invariant
            i <= tables.len(),
            out@ == framed_tables(tables@.take(i as int)),
        decreases tables.len() - i,
    {
        let ghost prev = out@;
        push_bytes(&mut out, tables[i].0.as_str().as_bytes());
        frame_values(&mut out, tables[i].1.as_slice());
        assert(tables@.take(i + 1).drop_last() =~= tables@.take(i as int));
        assert(tables@.take(i + 1).last() == tables@[i as int]);
        i = i + 1;
    }
    assert(tables@.take(tables.len() as int) =~= tables@);
    let ghost mid = out@;
    let mut j: usize = 0;
    assert(files@.take(0) =~= Seq::<(String, Option<String>)>::empty());
    assert(out@ =~= mid + framed_files(files@.take(0)));
    while j < files.len()
        invariant
            j <= files.len(),
            out@ == mid + framed_files(files@.take(j as int)),
        decreases files.len() - j,
    {
        let ghost prev = out@;
        push_bytes(&mut out, files[j].0.as_str().as_bytes());
        match &files[j].1 {
            Some(d) => push_bytes(&mut out, d.as_str().as_bytes()),
            None => {},
        }
        assert(files@.take(j + 1).drop_last() =~= files@.take(j as int));
        assert(files@.take(j + 1).last() == files@[j as int]);
        assert(out@ =~= mid + framed_files(files@.take(j + 1)));
        j = j + 1;
    }
    assert(files@.take(files.len() as int) =~= files@);
    out
}

/// The fingerprint of the migration source: the hex SHA-256 of its frame.
pub fn migration_source_fingerprint(tables: &[(String, Vec<String>)], files: &[(String, Option<String>)]) -> (r: String)
    ensures
        r@ == hex_of(sha256_of(framed_tables(tables@) + framed_files(files@))),
{
    let frame = migration_source_frame(tables, files);
    let d = sha256_digest(frame.as_slice());
    lower_hex(d.as_slice())
}

} // verus!
