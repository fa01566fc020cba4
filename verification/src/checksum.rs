//! Deterministic content fingerprint of a directory tree.
//!
//! The caller walks the tree and hands over one [`FileEntry`] per regular
//! file: the file's relative path (as bytes, with a single separator
//! convention) and its raw contents. [`hash_directory`] sorts the entries —
//! by path bytes, and by contents where paths tie — and feeds, for each entry
//! in that order, the path bytes followed by the content bytes into one
//! SHA-256 accumulator, returning the digest as a lowercase hex string.
//!
//! The digest is therefore a pure function of the multiset of (path, bytes)
//! pairs, insensitive to the order in which the tree was listed; see
//! [`lemma_digest_ignores_listing_order`].

use vstd::prelude::*;
use vstd::relations::{sorted_by, total_ordering};
use vstd::multiset::Multiset;
use vstd::seq_lib::lemma_multiset_commutative;
use vstd::seq_lib::lemma_sorted_unique;
use sha2::Digest;

use crate::order::{lemma_to_multiset_insert, lex_le, lex_le_antisym, lex_le_common_prefix,
    lex_le_refl, lex_le_total, lex_le_trans, strict_total};

verus! {

broadcast use vstd::seq_lib::group_to_multiset_ensures, vstd::multiset::group_multiset_axioms;

/// One regular file of the tree being fingerprinted: its relative path in
/// bytes and its raw contents.
pub struct FileEntry {
    /// The file's path relative to the tree root, normalized to a single
    /// separator convention, as UTF-8 bytes.
    pub path: Vec<u8>,
    /// The file's contents.
    pub data: Vec<u8>,
}

impl View for FileEntry {
    type V = (Seq<u8>, Seq<u8>);

    open spec fn view(&self) -> (Seq<u8>, Seq<u8>) {
        (self.path@, self.data@)
    }
}

/// The views of a sequence of entries.
pub open spec fn entry_views(s: Seq<FileEntry>) -> Seq<(Seq<u8>, Seq<u8>)> {
    s.map_values(|e: FileEntry| e@)
}

/// The strict order on bytes.
pub open spec fn byte_order() -> spec_fn(u8, u8) -> bool {
    |a: u8, b: u8| a < b
}

/// Byte-wise lexicographic "less than or equal" on byte strings.
pub open spec fn bytes_le(a: Seq<u8>, b: Seq<u8>) -> bool {
    lex_le(a, b, byte_order())
}

/// The entry order: by path bytes, by contents where the paths tie.
pub open spec fn entry_le(x: (Seq<u8>, Seq<u8>), y: (Seq<u8>, Seq<u8>)) -> bool {
    if x.0 == y.0 {
        bytes_le(x.1, y.1)
    } else {
        bytes_le(x.0, y.0)
    }
}

/// The entry order as a value, for `sorted_by` and `sort_by`.
pub open spec fn entry_order() -> spec_fn((Seq<u8>, Seq<u8>), (Seq<u8>, Seq<u8>)) -> bool {
    |x: (Seq<u8>, Seq<u8>), y: (Seq<u8>, Seq<u8>)| entry_le(x, y)
}

/// The order on bytes is strict and total.
pub proof fn byte_order_strict_total()
    ensures
        strict_total(byte_order()),
{
}

/// The entry order is a total ordering, as `sort_by` requires.
pub proof fn entry_order_total_ordering()
    ensures
        total_ordering(entry_order()),
{
    byte_order_strict_total();
    assert forall|x: (Seq<u8>, Seq<u8>)| #[trigger] entry_le(x, x) by {
        lex_le_refl(x.1, byte_order());
    }
    assert forall|x: (Seq<u8>, Seq<u8>), y: (Seq<u8>, Seq<u8>)|
        #[trigger] entry_le(x, y) && #[trigger] entry_le(y, x) implies x == y by {
        if x.0 == y.0 {
            lex_le_antisym(x.1, y.1, byte_order());
        } else {
            lex_le_antisym(x.0, y.0, byte_order());
        }
    }
    assert forall|x: (Seq<u8>, Seq<u8>), y: (Seq<u8>, Seq<u8>), z: (Seq<u8>, Seq<u8>)|
        #[trigger] entry_le(x, y) && #[trigger] entry_le(y, z) implies entry_le(x, z) by {
        entry_le_trans(x, y, z);
    }
    assert forall|x: (Seq<u8>, Seq<u8>), y: (Seq<u8>, Seq<u8>)|
        !(#[trigger] entry_le(x, y)) implies entry_le(y, x) by {
        entry_le_total(x, y);
    }
}

/// Any two entries compare in at least one direction.
proof fn entry_le_total(x: (Seq<u8>, Seq<u8>), y: (Seq<u8>, Seq<u8>))
    ensures
        entry_le(x, y) || entry_le(y, x),
{
    byte_order_strict_total();
    if x.0 == y.0 {
        lex_le_total(x.1, y.1, byte_order());
    } else {
        lex_le_total(x.0, y.0, byte_order());
    }
}

/// The entry order is transitive.
proof fn entry_le_trans(x: (Seq<u8>, Seq<u8>), y: (Seq<u8>, Seq<u8>), z: (Seq<u8>, Seq<u8>))
    requires
        entry_le(x, y),
        entry_le(y, z),
    ensures
        entry_le(x, z),
{
    byte_order_strict_total();
    if x.0 == y.0 && y.0 == z.0 {
        lex_le_trans(x.1, y.1, z.1, byte_order());
    } else if x.0 == y.0 {
        assert(x.0 != z.0);
    } else if y.0 == z.0 {
        assert(x.0 != z.0);
    } else {
        lex_le_trans(x.0, y.0, z.0, byte_order());
        if x.0 == z.0 {
            lex_le_antisym(x.0, y.0, byte_order());
        }
    }
}

/// The byte stream fed to the hash accumulator: for each entry in order, its
/// path bytes followed by its content bytes.
pub open spec fn stream_of(vs: Seq<(Seq<u8>, Seq<u8>)>) -> Seq<u8>
    decreases vs.len(),
{
    if vs.len() == 0 {
        Seq::empty()
    } else {
        vs[0].0 + vs[0].1 + stream_of(vs.drop_first())
    }
}

/// Appending an entry at the end extends the stream at the end.
proof fn lemma_stream_push(vs: Seq<(Seq<u8>, Seq<u8>)>, v: (Seq<u8>, Seq<u8>))
    ensures
        stream_of(vs.push(v)) == stream_of(vs) + v.0 + v.1,
    decreases vs.len(),
{
    if vs.len() == 0 {
        assert(vs.push(v)[0] == v);
        assert(vs.push(v).drop_first() =~= Seq::<(Seq<u8>, Seq<u8>)>::empty());
        assert(stream_of(vs.push(v).drop_first()) == Seq::<u8>::empty());
        assert(stream_of(vs) == Seq::<u8>::empty());
        assert(stream_of(vs.push(v)) =~= stream_of(vs) + v.0 + v.1);
    } else {
        assert(vs.push(v)[0] == vs[0]);
        assert(vs.push(v).drop_first() =~= vs.drop_first().push(v));
        lemma_stream_push(vs.drop_first(), v);
        assert(stream_of(vs.push(v)) == vs[0].0 + vs[0].1 + (stream_of(vs.drop_first()) + v.0
            + v.1));
        assert(stream_of(vs.push(v)) =~= stream_of(vs) + v.0 + v.1);
    }
}

/// The SHA-256 digest (32 bytes) of a byte string.
pub uninterp spec fn sha256_of(bytes: Seq<u8>) -> Seq<u8>;

/// The lowercase hex digit for a value below 16.
pub open spec fn hex_digit(n: u8) -> char
    recommends
        n < 16,
{
    if n < 10 {
        ((('0' as u8) + n) as char)
    } else {
        ((('a' as u8) + (n - 10)) as char)
    }
}

/// The lowercase hexadecimal rendering of a byte string: two digits per
/// byte, high nibble first.
pub open spec fn hex_of(bytes: Seq<u8>) -> Seq<char>
    decreases bytes.len(),
{
    if bytes.len() == 0 {
        Seq::empty()
    } else {
        seq![hex_digit(bytes[0] / 16), hex_digit(bytes[0] % 16)] + hex_of(bytes.drop_first())
    }
}

/// The hex rendering is two characters per byte.
pub proof fn lemma_hex_of_len(bytes: Seq<u8>)
    ensures
        hex_of(bytes).len() == 2 * bytes.len(),
    decreases bytes.len(),
{
    if bytes.len() > 0 {
        lemma_hex_of_len(bytes.drop_first());
    }
}

/// LAW. The hex rendering — and so the digest string — is lowercase hex:
/// every character is a decimal digit or one of 'a' through 'f'.
pub proof fn lemma_hex_of_lowercase(bytes: Seq<u8>)
    ensures
        forall|i: int|
            0 <= i < hex_of(bytes).len() ==> ('0' <= #[trigger] hex_of(bytes)[i] && hex_of(
                bytes,
            )[i] <= '9' || 'a' <= hex_of(bytes)[i] && hex_of(bytes)[i] <= 'f'),
    decreases bytes.len(),
{
    if bytes.len() > 0 {
        lemma_hex_of_lowercase(bytes.drop_first());
        assert forall|i: int|
            0 <= i < hex_of(bytes).len() implies ('0' <= #[trigger] hex_of(bytes)[i] && hex_of(
            bytes,
        )[i] <= '9' || 'a' <= hex_of(bytes)[i] && hex_of(bytes)[i] <= 'f') by {
            if i >= 2 {
                assert(hex_of(bytes)[i] == hex_of(bytes.drop_first())[i - 2]);
            }
        }
    }
}

/// Relies on sha2's `Sha256::digest`: one 32-byte digest, a function of the
/// input bytes alone.
#[verifier::external_body]
fn sha256_digest(data: &Vec<u8>) -> (r: Vec<u8>)
    ensures
        r@ == sha256_of(data@),
        r@.len() == 32,
{
    sha2::Sha256::digest(data.as_slice()).to_vec()
}

/// Relies on `hex::encode`: for each input byte in order, the lowercase hex
/// digit of its high nibble then of its low nibble — exactly [`hex_of`].
#[verifier::external_body]
fn hex_encode(data: &Vec<u8>) -> (r: String)
    ensures
        r@ == hex_of(data@),
{
    hex::encode(data.as_slice())
}

/// The fingerprint of a tree given as entry views: the lowercase hex SHA-256
/// digest of the stream of the entries in sorted order.
pub open spec fn directory_digest(vs: Seq<(Seq<u8>, Seq<u8>)>) -> Seq<char> {
    hex_of(sha256_of(stream_of(vs.sort_by(entry_order()))))
}

/// Byte-wise lexicographic comparison of two byte strings.
fn bytes_le_exec(a: &Vec<u8>, b: &Vec<u8>) -> (r: bool)
    ensures
        r == bytes_le(a@, b@),
{
    proof {
        byte_order_strict_total();
    }
    let an: usize = a.len();
    let bn: usize = b.len();
    let mut i: usize = 0;
    while i < an && i < bn
        invariant
            i <= an,
            i <= bn,
            an == a@.len(),
            bn == b@.len(),
            forall|j: int| 0 <= j < i ==> a@[j] == b@[j],
        decreases an - i,
    {
        proof {
            byte_order_strict_total();
            lex_le_common_prefix(a@, b@, i as int, byte_order());
            lex_le_common_prefix(b@, a@, i as int, byte_order());
        }
        if a[i] < b[i] {
            proof {
                assert(a@.skip(i as int)[0] == a@[i as int]);
                assert(b@.skip(i as int)[0] == b@[i as int]);
            }
            return true;
        }
        if a[i] > b[i] {
            proof {
                assert(a@.skip(i as int)[0] == a@[i as int]);
                assert(b@.skip(i as int)[0] == b@[i as int]);
            }
            return false;
        }
        i = i + 1;
    }
    proof {
        byte_order_strict_total();
        lex_le_common_prefix(a@, b@, i as int, byte_order());
        lex_le_common_prefix(b@, a@, i as int, byte_order());
        if i == an {
            assert(a@.skip(i as int).len() == 0);
        } else {
            assert(b@.skip(i as int).len() == 0);
            assert(a@.skip(i as int).len() > 0);
        }
    }
    an <= bn
}

/// Byte-for-byte equality of two byte strings.
fn bytes_eq(a: &Vec<u8>, b: &Vec<u8>) -> (r: bool)
    ensures
        r == (a@ == b@),
{
    if a.len() != b.len() {
        return false;
    }
    let mut i: usize = 0;
    while i < a.len()
        invariant
            i <= a@.len(),
            a@.len() == b@.len(),
            forall|j: int| 0 <= j < i ==> a@[j] == b@[j],
        decreases a@.len() - i,
    {
        if a[i] != b[i] {
            return false;
        }
        i = i + 1;
    }
    proof {
        assert(a@ =~= b@);
    }
    true
}

/// Comparison of two entries in the entry order.
fn entry_le_exec(x: &FileEntry, y: &FileEntry) -> (r: bool)
    ensures
        r == entry_le(x@, y@),
{
    if bytes_eq(&x.path, &y.path) {
        bytes_le_exec(&x.data, &y.data)
    } else {
        bytes_le_exec(&x.path, &y.path)
    }
}

/// The position at which `e` belongs in the sorted vector `out`: the first
/// index whose entry `e` compares less-or-equal to.
fn find_insert_pos(out: &Vec<FileEntry>, e: &FileEntry) -> (idx: usize)
    ensures
        idx <= out@.len(),
        forall|j: int| 0 <= j < idx ==> !entry_le(e@, entry_views(out@)[j]),
        idx < out@.len() ==> entry_le(e@, entry_views(out@)[idx as int]),
{
    let mut idx: usize = 0;
    while idx < out.len()
        invariant
            idx <= out@.len(),
            forall|j: int| 0 <= j < idx ==> !entry_le(e@, entry_views(out@)[j]),
        decreases out@.len() - idx,
    {
        if entry_le_exec(e, &out[idx]) {
            return idx;
        }
        idx = idx + 1;
    }
    idx
}

/// Places `e` into the sorted vector `out`, keeping it sorted.
fn insert_sorted(out: &mut Vec<FileEntry>, e: FileEntry)
    requires
        sorted_by(entry_views(old(out)@), entry_order()),
    ensures
        sorted_by(entry_views(final(out)@), entry_order()),
        entry_views(final(out)@).to_multiset() == entry_views(old(out)@).to_multiset().insert(e@),
{
    let idx = find_insert_pos(out, &e);
    let ghost vs = entry_views(out@);
    out.insert(idx, e);
    proof {
        assert(entry_views(out@) =~= vs.insert(idx as int, e@));
        lemma_to_multiset_insert(vs, idx as int, e@);
        let nvs = entry_views(out@);
        let leq = entry_order();
        assert forall|p: int, q: int| 0 <= p < q < nvs.len() implies #[trigger] leq(
            nvs[p],
            nvs[q],
        ) by {
            if q < idx {
                assert(leq(vs[p], vs[q]));
            } else if p < idx && q == idx {
                assert(!entry_le(e@, vs[p]));
                entry_le_total(e@, vs[p]);
            } else if p == idx && q > idx {
                assert(entry_le(e@, vs[idx as int]));
                if q - 1 > idx {
                    assert(leq(vs[idx as int], vs[q - 1]));
                    entry_le_trans(e@, vs[idx as int], vs[q - 1]);
                }
            } else if p < idx && q > idx {
                assert(leq(vs[p], vs[q - 1]));
            } else if p > idx {
                assert(leq(vs[p - 1], vs[q - 1]));
            }
        }
        assert(sorted_by(nvs, entry_order()));
    }
}

/// Sorts the entries in the entry order; the result holds exactly the given
/// entries.
fn sort_entries(entries: Vec<FileEntry>) -> (r: Vec<FileEntry>)
    ensures
        sorted_by(entry_views(r@), entry_order()),
        entry_views(r@).to_multiset() == entry_views(entries@).to_multiset(),
{
    let ghost orig = entry_views(entries@);
    let mut rest = entries;
    let mut out: Vec<FileEntry> = Vec::new();
    proof {
        assert(entry_views(out@) =~= Seq::<(Seq<u8>, Seq<u8>)>::empty());
        assert(entry_views(out@).to_multiset().add(entry_views(rest@).to_multiset())
            =~= orig.to_multiset());
    }
    while rest.len() > 0
        invariant
            sorted_by(entry_views(out@), entry_order()),
            entry_views(out@).to_multiset().add(entry_views(rest@).to_multiset())
                == orig.to_multiset(),
        decreases rest@.len(),
    {
        let ghost pre = entry_views(rest@);
        let e = match rest.pop() {
            Some(e) => e,
            None => {
                proof {
                    assert(false);
                }
                return out;
            },
        };
        proof {
            assert(pre =~= entry_views(rest@).push(e@));
            assert(pre.to_multiset() == entry_views(rest@).to_multiset().insert(e@));
        }
        let ghost outpre = entry_views(out@);
        insert_sorted(&mut out, e);
        proof {
            let m_out = outpre.to_multiset();
            let m_rest = entry_views(rest@).to_multiset();
            assert(m_out.insert(e@).add(m_rest) =~= m_out.add(m_rest.insert(e@)));
        }
    }
    proof {
        assert(entry_views(rest@).to_multiset() =~= Multiset::<(Seq<u8>, Seq<u8>)>::empty());
        assert(entry_views(out@).to_multiset() =~= orig.to_multiset());
    }
    out
}

/// Appends the bytes of `src` to `buf`.
fn append_bytes(buf: &mut Vec<u8>, src: &Vec<u8>)
    ensures
        final(buf)@ == old(buf)@ + src@,
{
    let mut i: usize = 0;
    while i < src.len()
        invariant
            i <= src@.len(),
            buf@ == old(buf)@ + src@.take(i as int),
        decreases src@.len() - i,
    {
        buf.push(src[i]);
        proof {
            assert(old(buf)@ + src@.take(i + 1) =~= (old(buf)@ + src@.take(i as int)).push(
                src@[i as int],
            ));
        }
        i = i + 1;
    }
    proof {
        assert(src@.take(src@.len() as int) =~= src@);
    }
}

/// Compute the content fingerprint of a directory tree, given one entry per
/// regular file under its root.
///
/// The result is the lowercase hex SHA-256 digest over the entries sorted by
/// path bytes (contents breaking ties), each contributing its path bytes
/// followed by its content bytes.
pub fn hash_directory(entries: Vec<FileEntry>) -> (r: String)
    ensures
        r@ == directory_digest(entry_views(entries@)),
        r@.len() == 64,
{
    let ghost orig = entry_views(entries@);
    let sorted = sort_entries(entries);
    proof {
        entry_order_total_ordering();
        orig.lemma_sort_by_ensures(entry_order());
        lemma_sorted_unique(entry_views(sorted@), orig.sort_by(entry_order()), entry_order());
    }
    let mut buf: Vec<u8> = Vec::new();
    let mut i: usize = 0;
    proof {
        assert(stream_of(entry_views(sorted@).take(0)) =~= buf@);
    }
    while i < sorted.len()
        invariant
            i <= sorted@.len(),
            buf@ == stream_of(entry_views(sorted@).take(i as int)),
        decreases sorted@.len() - i,
    {
        let ghost pre = buf@;
        append_bytes(&mut buf, &sorted[i].path);
        append_bytes(&mut buf, &sorted[i].data);
        proof {
            let vs = entry_views(sorted@);
            assert(vs.take(i + 1) =~= vs.take(i as int).push(vs[i as int]));
            lemma_stream_push(vs.take(i as int), vs[i as int]);
        }
        i = i + 1;
    }
    proof {
        assert(entry_views(sorted@).take(sorted@.len() as int) =~= entry_views(sorted@));
    }
    let digest = sha256_digest(&buf);
    proof {
        lemma_hex_of_len(digest@);
    }
    hex_encode(&digest)
}

/// LAW. The fingerprint depends only on which (path, contents) pairs are
/// present, never on the order in which the tree was listed: two entry lists
/// holding the same multiset of entries yield the same digest.
pub proof fn lemma_digest_ignores_listing_order(
    e1: Seq<(Seq<u8>, Seq<u8>)>,
    e2: Seq<(Seq<u8>, Seq<u8>)>,
)
    requires
        e1.to_multiset() == e2.to_multiset(),
    ensures
        directory_digest(e1) == directory_digest(e2),
{
    entry_order_total_ordering();
    e1.lemma_sort_by_ensures(entry_order());
    e2.lemma_sort_by_ensures(entry_order());
    lemma_sorted_unique(e1.sort_by(entry_order()), e2.sort_by(entry_order()), entry_order());
}

} // verus!
