//! Merkle inclusion proofs over SHA-256 with sorted pairs.
//!
//! A leaf is the digest of the recipient's identity followed by the amount in
//! decimal digits. Going up, the current value and its sibling are put in
//! ascending byte order, joined and hashed again, so a proof carries sibling values
//! only and no direction.

use vstd::prelude::*;
use vstd::utf8::encode_utf8;
use sha2::Digest;
use crate::error::HexError;

verus! {

/// Bytes in a SHA-256 digest.
pub const HASH_SIZE: usize = 32;

/// The SHA-256 digest of `data`.
pub uninterp spec fn sha256_digest(data: Seq<u8>) -> Seq<u8>;

/// Calls `sha2::Sha256::digest`, which hashes the whole input at once and returns
/// the 32 bytes of its SHA-256 digest.
#[verifier::external_body]
fn sha256(data: &[u8]) -> (digest: [u8; 32])
    ensures
        digest@ == sha256_digest(data@),
{
    sha2::Sha256::digest(data).into()
}

/// `byte` is one of `0`-`9`, `A`-`F`, `a`-`f`.
pub open spec fn is_hex_digit(byte: u8) -> bool {
    ||| 0x30 <= byte <= 0x39
    ||| 0x41 <= byte <= 0x46
    ||| 0x61 <= byte <= 0x66
}

/// The value of a hex digit, upper or lower case.
pub open spec fn hex_value(byte: u8) -> int {
    if 0x30 <= byte <= 0x39 {
        byte - 0x30
    } else if 0x41 <= byte <= 0x46 {
        byte - 0x41 + 10
    } else {
        byte - 0x61 + 10
    }
}

/// The position of the first byte that is no hex digit; the length where all are.
pub open spec fn first_non_hex(data: Seq<u8>) -> int
    decreases data.len(),
{
    if data.len() == 0 || !is_hex_digit(data[0]) {
        0
    } else {
        1 + first_non_hex(data.drop_first())
    }
}

/// What decoding `data` as the hex form of `size` bytes gives: two digits make one
/// byte, the high digit first.
pub open spec fn decode_hex(data: Seq<u8>, size: int) -> Result<Seq<u8>, HexError> {
    if data.len() % 2 != 0 {
        Err(HexError::OddLength)
    } else if data.len() / 2 != size {
        Err(HexError::InvalidStringLength)
    } else if first_non_hex(data) < data.len() {
        Err(
            HexError::InvalidHexCharacter {
                c: data[first_non_hex(data)] as char,
                index: first_non_hex(data) as usize,
            },
        )
    } else {
        Ok(
            Seq::new(
                size as nat,
                |i: int| (hex_value(data[2 * i]) * 16 + hex_value(data[2 * i + 1])) as u8,
            ),
        )
    }
}

/// Calls `hex::decode_to_slice` on a buffer of `N` bytes. That function refuses an
/// odd length first, then a length other than twice the buffer's, then the first
/// byte that is no hex digit, which it reports with its position; otherwise it
/// fills the buffer, two digits to a byte.
#[verifier::external_body]
fn decode_hex_array<const N: usize>(data: &[u8]) -> (res: Result<[u8; N], HexError>)
    ensures
        (match res {
            Ok(bytes) => decode_hex(data@, N as int) matches Ok(decoded) && decoded == bytes@,
            Err(error) => decode_hex(data@, N as int) matches Err(refusal) && refusal == error,
        }),
{
    let mut bytes = [0u8; N];
    match hex::decode_to_slice(data, &mut bytes) {
        Ok(()) => Ok(bytes),
        Err(hex::FromHexError::InvalidHexCharacter { c, index }) => Err(
            HexError::InvalidHexCharacter { c, index },
        ),
        Err(hex::FromHexError::OddLength) => Err(HexError::OddLength),
        Err(hex::FromHexError::InvalidStringLength) => Err(HexError::InvalidStringLength),
    }
}

/// The decimal digits of `n` in ASCII, without leading zeros.
pub open spec fn decimal_digits(n: nat) -> Seq<u8>
    decreases n,
{
    if n < 10 {
        seq![(0x30 + n) as u8]
    } else {
        decimal_digits(n / 10).push((0x30 + n % 10) as u8)
    }
}

/// What is hashed into a leaf: the identity in UTF-8, then the amount in decimal.
pub open spec fn leaf_preimage_bytes(sender: Seq<char>, amount: nat) -> Seq<u8> {
    encode_utf8(sender) + decimal_digits(amount)
}

/// Appends the decimal digits of `n` to `out`.
fn push_decimal(out: &mut Vec<u8>, n: u128)
    ensures
        final(out)@ == old(out)@ + decimal_digits(n as nat),
    decreases n,
{
    if n >= 10 {
        push_decimal(out, n / 10);
    }
    let digit: u8 = (n % 10) as u8;
    out.push(0x30 + digit);
    assert(final(out)@ == old(out)@ + decimal_digits(n as nat)) by {
        if n >= 10 {
            assert(old(out)@ + decimal_digits((n / 10) as nat).push((0x30 + n % 10) as u8) == (
            old(out)@ + decimal_digits((n / 10) as nat)).push((0x30 + n % 10) as u8));
        }
    }
}

/// Appends `bytes` to `out`.
fn push_bytes(out: &mut Vec<u8>, bytes: &[u8])
    ensures
        final(out)@ == old(out)@ + bytes@,
{
    let n: usize = bytes.len();
    let mut i: usize = 0;
    while i < n
        invariant
            i <= n,
            n == bytes@.len(),
            out@ == old(out)@ + bytes@.take(i as int),
        decreases n - i,
    {
        out.push(bytes[i]);
        assert(bytes@.take(i + 1) == bytes@.take(i as int).push(bytes@[i as int]));
        i += 1;
    }
    assert(bytes@.take(n as int) == bytes@);
}

/// The bytes that are hashed into the leaf of `sender` and `amount`.
pub fn leaf_preimage(sender: &str, amount: u128) -> (bytes: Vec<u8>)
    ensures
        bytes@ == leaf_preimage_bytes(sender@, amount as nat),
{
    let mut bytes: Vec<u8> = Vec::new();
    push_bytes(&mut bytes, sender.as_bytes());
    push_decimal(&mut bytes, amount);
    bytes
}

/// `a` and `b` agree in front of position `k` and differ there.
pub open spec fn differs_first_at(a: Seq<u8>, b: Seq<u8>, k: int) -> bool {
    &&& 0 <= k < a.len()
    &&& k < b.len()
    &&& a[k] != b[k]
    &&& forall|j: int| 0 <= j < k ==> a[j] == b[j]
}

/// `a` comes before `b` in byte order: at the first position where the two differ,
/// `a` holds the smaller byte.
pub open spec fn lex_less(a: Seq<u8>, b: Seq<u8>) -> bool {
    exists|k: int| #[trigger] differs_first_at(a, b, k) && a[k] < b[k]
}

/// The two values joined, the one that comes first in byte order in front.
pub open spec fn sorted_pair(a: Seq<u8>, b: Seq<u8>) -> Seq<u8> {
    if lex_less(b, a) {
        b + a
    } else {
        a + b
    }
}

/// The parent of two nodes.
pub open spec fn pair_hash(a: Seq<u8>, b: Seq<u8>) -> Seq<u8> {
    sha256_digest(sorted_pair(a, b))
}

/// The leaf of `sender` and `amount`.
pub open spec fn leaf_hash(sender: Seq<char>, amount: nat) -> Seq<u8> {
    sha256_digest(leaf_preimage_bytes(sender, amount))
}

/// Where the proof leads from `current`: each element is decoded from hex and
/// paired with the value reached so far. The first element that does not decode
/// ends the climb with its error.
pub open spec fn climb(current: Seq<u8>, proof: Seq<Seq<u8>>) -> Result<Seq<u8>, HexError>
    decreases proof.len(),
{
    if proof.len() == 0 {
        Ok(current)
    } else {
        match decode_hex(proof[0], HASH_SIZE as int) {
            Err(error) => Err(error),
            Ok(sibling) => climb(pair_hash(current, sibling), proof.drop_first()),
        }
    }
}

/// The UTF-8 bytes of each string.
pub open spec fn bytes_of_strings(strings: Seq<String>) -> Seq<Seq<u8>> {
    Seq::new(strings.len(), |i: int| encode_utf8(strings[i]@))
}

/// Whether the proof leads from the leaf of `sender` and `amount` to `root`, which
/// is given in hex like the proof's elements. An element that does not decode
/// counts before a root that does not.
pub open spec fn proof_outcome(
    sender: Seq<char>,
    amount: nat,
    proof: Seq<Seq<u8>>,
    root: Seq<u8>,
) -> Result<bool, HexError> {
    match climb(leaf_hash(sender, amount), proof) {
        Err(error) => Err(error),
        Ok(top) => match decode_hex(root, HASH_SIZE as int) {
            Err(error) => Err(error),
            Ok(expected) => Ok(expected == top),
        },
    }
}

/// Joins two hashes, the one that comes first in byte order in front.
pub fn sorted_concat(a: &[u8; 32], b: &[u8; 32]) -> (joined: Vec<u8>)
    ensures
        joined@ == sorted_pair(a@, b@),
{
    let mut i: usize = 0;
    while i < 32 && a[i] == b[i]
        invariant
            i <= 32,
            forall|j: int| 0 <= j < i ==> a@[j] == b@[j],
        decreases 32 - i,
    {
        i += 1;
    }
    let swap: bool = i < 32 && b[i] < a[i];
    proof {
        if swap {
            assert(differs_first_at(b@, a@, i as int));
        } else {
            assert forall|k: int| !(#[trigger] differs_first_at(b@, a@, k) && b@[k] < a@[k]) by {
                if differs_first_at(b@, a@, k) && b@[k] < a@[k] {
                    if i < 32 && k > i {
                        assert(b@[i as int] == a@[i as int]);
                    }
                }
            }
        }
    }
    let mut joined: Vec<u8> = Vec::new();
    if swap {
        push_bytes(&mut joined, b.as_slice());
        push_bytes(&mut joined, a.as_slice());
    } else {
        push_bytes(&mut joined, a.as_slice());
        push_bytes(&mut joined, b.as_slice());
    }
    joined
}

/// The leaf of `sender` and `amount`.
pub fn hash_leaf(sender: &str, amount: u128) -> (leaf: [u8; 32])
    ensures
        leaf@ == leaf_hash(sender@, amount as nat),
{
    let preimage = leaf_preimage(sender, amount);
    sha256(preimage.as_slice())
}

/// The parent of two nodes.
pub fn hash_pair(a: &[u8; 32], b: &[u8; 32]) -> (parent: [u8; 32])
    ensures
        parent@ == pair_hash(a@, b@),
{
    let joined = sorted_concat(a, b);
    sha256(joined.as_slice())
}

/// Decodes the hex form of a hash.
pub fn decode_hash(text: &str) -> (res: Result<[u8; 32], HexError>)
    ensures
        (match res {
            Ok(bytes) => decode_hex(encode_utf8(text@), HASH_SIZE as int) matches Ok(decoded)
                && decoded == bytes@,
            Err(error) => decode_hex(encode_utf8(text@), HASH_SIZE as int) matches Err(refusal)
                && refusal == error,
        }),
{
    decode_hex_array::<32>(text.as_bytes())
}

/// Whether two hashes hold the same bytes.
pub fn same_hash(a: &[u8; 32], b: &[u8; 32]) -> (same: bool)
    ensures
        same == (a@ == b@),
{
    let mut i: usize = 0;
    while i < 32
        invariant
            i <= 32,
            forall|j: int| 0 <= j < i ==> a@[j] == b@[j],
        decreases 32 - i,
    {
        if a[i] != b[i] {
            return false;
        }
        i += 1;
    }
    assert(a@ =~= b@);
    true
}

/// Climbs from `leaf` along `proof`, whose elements are hashes in hex.
pub fn compute_merkle_root(leaf: [u8; 32], proof: &Vec<String>) -> (res: Result<
    [u8; 32],
    HexError,
>)
    ensures
        (match res {
            Ok(top) => climb(leaf@, bytes_of_strings(proof@)) matches Ok(reached) && reached
                == top@,
            Err(error) => climb(leaf@, bytes_of_strings(proof@)) matches Err(refusal) && refusal
                == error,
        }),
{
    let ghost path = bytes_of_strings(proof@);
    let n: usize = proof.len();
    let mut current: [u8; 32] = leaf;
    let mut i: usize = 0;
    assert(path.skip(0) == path);
    while i < n
        invariant
            i <= n,
            n == proof@.len(),
            path == bytes_of_strings(proof@),
            climb(leaf@, path) == climb(current@, path.skip(i as int)),
        decreases n - i,
    {
        assert(path.skip(i as int)[0] == encode_utf8(proof@[i as int]@));
        assert(path.skip(i as int).drop_first() == path.skip(i + 1));
        let sibling: [u8; 32] = match decode_hash(proof[i].as_str()) {
            Ok(sibling) => sibling,
            Err(error) => {
                return Err(error);
            },
        };
        current = hash_pair(&current, &sibling);
        i += 1;
    }
    Ok(current)
}

/// Checks an inclusion proof for the leaf of `sender` and `amount` against the
/// root `merkle_root`, given in hex. `Ok(false)` says that proof and root are well
/// formed but do not match; an `Err` says that one of them is no hash in hex.
pub fn verify_proof(sender: &str, amount: u128, proof: &Vec<String>, merkle_root: &str) -> (res:
    Result<bool, HexError>)
    ensures
        res == proof_outcome(
            sender@,
            amount as nat,
            bytes_of_strings(proof@),
            encode_utf8(merkle_root@),
        ),
{
    let leaf = hash_leaf(sender, amount);
    let top: [u8; 32] = match compute_merkle_root(leaf, proof) {
        Ok(top) => top,
        Err(error) => {
            return Err(error);
        },
    };
    let expected: [u8; 32] = match decode_hash(merkle_root) {
        Ok(expected) => expected,
        Err(error) => {
            return Err(error);
        },
    };
    Ok(same_hash(&expected, &top))
}

/// The lower-case hex digit for a value below 16.
pub open spec fn hex_digit(value: int) -> u8 {
    if value < 10 {
        (0x30 + value) as u8
    } else {
        (0x61 + value - 10) as u8
    }
}

/// The lower-case hex form of `bytes`: two digits for each byte, the high one
/// first.
pub open spec fn hex_encoding(bytes: Seq<u8>) -> Seq<u8> {
    Seq::new(
        2 * bytes.len(),
        |i: int|
            hex_digit(
                if i % 2 == 0 {
                    (bytes[i / 2] as int) / 16
                } else {
                    (bytes[i / 2] as int) % 16
                },
            ),
    )
}

/// A Merkle tree as the verifier sees it: a leaf holds a hash, a node has two
/// subtrees.
pub enum MerkleTree {
    Leaf { hash: Seq<u8> },
    Node { left: Box<MerkleTree>, right: Box<MerkleTree> },
}

/// The hash of a tree: that of a leaf, or the parent of the two subtrees' hashes.
pub open spec fn tree_root(tree: MerkleTree) -> Seq<u8>
    decreases tree,
{
    match tree {
        MerkleTree::Leaf { hash } => hash,
        MerkleTree::Node { left, right } => pair_hash(tree_root(*left), tree_root(*right)),
    }
}

/// The hash of every subtree has the size of a digest.
pub open spec fn tree_hashes_sized(tree: MerkleTree) -> bool
    decreases tree,
{
    &&& tree_root(tree).len() == HASH_SIZE
    &&& match tree {
        MerkleTree::Leaf { .. } => true,
        MerkleTree::Node { left, right } => tree_hashes_sized(*left) && tree_hashes_sized(*right),
    }
}

/// `route` leads from the root to a leaf; at each node `true` goes right.
pub open spec fn route_in_tree(tree: MerkleTree, route: Seq<bool>) -> bool
    decreases tree,
{
    match tree {
        MerkleTree::Leaf { .. } => route.len() == 0,
        MerkleTree::Node { left, right } => route.len() > 0 && route_in_tree(
            if route[0] {
                *right
            } else {
                *left
            },
            route.drop_first(),
        ),
    }
}

/// The hash of the leaf that `route` leads to.
pub open spec fn leaf_on_route(tree: MerkleTree, route: Seq<bool>) -> Seq<u8>
    decreases tree,
{
    match tree {
        MerkleTree::Leaf { hash } => hash,
        MerkleTree::Node { left, right } => leaf_on_route(
            if route[0] {
                *right
            } else {
                *left
            },
            route.drop_first(),
        ),
    }
}

/// The inclusion proof for the leaf that `route` leads to: the hash of the subtree
/// passed by at each node, in hex, from the leaf upwards.
pub open spec fn proof_on_route(tree: MerkleTree, route: Seq<bool>) -> Seq<Seq<u8>>
    decreases tree,
{
    match tree {
        MerkleTree::Leaf { .. } => Seq::empty(),
        MerkleTree::Node { left, right } => if route[0] {
            proof_on_route(*right, route.drop_first()).push(hex_encoding(tree_root(*left)))
        } else {
            proof_on_route(*left, route.drop_first()).push(hex_encoding(tree_root(*right)))
        },
    }
}

proof fn lemma_all_hex_digits(data: Seq<u8>)
    requires
        forall|i: int| 0 <= i < data.len() ==> is_hex_digit(#[trigger] data[i]),
    ensures
        first_non_hex(data) == data.len(),
    decreases data.len(),
{
    if data.len() > 0 {
        let rest = data.drop_first();
        assert forall|i: int| 0 <= i < rest.len() implies is_hex_digit(#[trigger] rest[i]) by {
            assert(rest[i] == data[i + 1]);
        }
        lemma_all_hex_digits(rest);
    }
}

/// Decoding the hex form of a value gives the value back.
pub proof fn lemma_decode_hex_encoding(bytes: Seq<u8>)
    ensures
        decode_hex(hex_encoding(bytes), bytes.len() as int) == Ok::<Seq<u8>, HexError>(bytes),
{
    let text = hex_encoding(bytes);
    assert forall|i: int| 0 <= i < text.len() implies is_hex_digit(#[trigger] text[i]) by {
        let byte = bytes[i / 2] as int;
        assert(0 <= byte / 16 < 16 && 0 <= byte % 16 < 16);
    }
    lemma_all_hex_digits(text);
    let decoded = Seq::new(
        bytes.len(),
        |i: int| (hex_value(text[2 * i]) * 16 + hex_value(text[2 * i + 1])) as u8,
    );
    assert forall|i: int| 0 <= i < bytes.len() implies decoded[i] == bytes[i] by {
        let byte = bytes[i] as int;
        assert((2 * i) / 2 == i && (2 * i + 1) / 2 == i);
        assert((2 * i) % 2 == 0 && (2 * i + 1) % 2 == 1);
        assert(0 <= byte / 16 < 16 && 0 <= byte % 16 < 16);
        assert(hex_value(hex_digit(byte / 16)) == byte / 16);
        assert(hex_value(hex_digit(byte % 16)) == byte % 16);
    }
    assert(decoded =~= bytes);
}

/// Two values of one length that differ somewhere differ first somewhere.
proof fn lemma_first_difference(a: Seq<u8>, b: Seq<u8>) -> (k: int)
    requires
        a.len() == b.len(),
        a != b,
    ensures
        differs_first_at(a, b, k),
    decreases a.len(),
{
    if a.len() == 0 {
        assert(a =~= b);
        0
    } else if a.drop_last() == b.drop_last() {
        assert(a.last() != b.last()) by {
            if a.last() == b.last() {
                assert(a =~= a.drop_last().push(a.last()));
                assert(b =~= b.drop_last().push(b.last()));
            }
        }
        assert forall|j: int| 0 <= j < a.len() - 1 implies a[j] == b[j] by {
            assert(a[j] == a.drop_last()[j]);
            assert(b[j] == b.drop_last()[j]);
        }
        a.len() - 1
    } else {
        let k = lemma_first_difference(a.drop_last(), b.drop_last());
        assert(a[k] == a.drop_last()[k] && b[k] == b.drop_last()[k]);
        assert forall|j: int| 0 <= j < k implies a[j] == b[j] by {
            assert(a[j] == a.drop_last()[j]);
            assert(b[j] == b.drop_last()[j]);
        }
        k
    }
}

/// Joining two values of one length in byte order gives the same whichever is
/// named first.
pub proof fn lemma_sorted_pair_symmetric(a: Seq<u8>, b: Seq<u8>)
    requires
        a.len() == b.len(),
    ensures
        sorted_pair(a, b) == sorted_pair(b, a),
{
    if lex_less(a, b) && lex_less(b, a) {
        let i = choose|k: int| #[trigger] differs_first_at(a, b, k) && a[k] < b[k];
        let j = choose|k: int| #[trigger] differs_first_at(b, a, k) && b[k] < a[k];
        if i < j {
            assert(b[i] == a[i]);
        } else if j < i {
            assert(a[j] == b[j]);
        }
        assert(false);
    }
    if !lex_less(a, b) && !lex_less(b, a) && a != b {
        let k = lemma_first_difference(a, b);
        assert(differs_first_at(b, a, k));
        assert(false);
    }
}

/// The order in which two hashes are given does not matter to their parent.
pub proof fn lemma_pair_hash_symmetric(a: Seq<u8>, b: Seq<u8>)
    requires
        a.len() == b.len(),
    ensures
        pair_hash(a, b) == pair_hash(b, a),
{
    lemma_sorted_pair_symmetric(a, b);
}

/// What is joined with a value can be read off the joined pair: two values that
/// give the same pair with `c` are the same.
pub proof fn lemma_sorted_pair_cancels(c: Seq<u8>, s: Seq<u8>, t: Seq<u8>)
    requires
        c.len() == s.len(),
        c.len() == t.len(),
        sorted_pair(c, s) == sorted_pair(c, t),
    ensures
        s == t,
{
    let n = c.len() as int;
    let left = sorted_pair(c, s);
    let right = sorted_pair(c, t);
    assert((c + s).subrange(0, n) =~= c && (c + s).subrange(n, 2 * n) =~= s);
    assert((s + c).subrange(0, n) =~= s && (s + c).subrange(n, 2 * n) =~= c);
    assert((c + t).subrange(0, n) =~= c && (c + t).subrange(n, 2 * n) =~= t);
    assert((t + c).subrange(0, n) =~= t && (t + c).subrange(n, 2 * n) =~= c);
    assert(left.subrange(0, n) == right.subrange(0, n));
    assert(left.subrange(n, 2 * n) == right.subrange(n, 2 * n));
}

/// Climbing along a proof with one more element at its end is climbing along the
/// proof and then pairing with that element.
proof fn lemma_climb_push(current: Seq<u8>, proof: Seq<Seq<u8>>, element: Seq<u8>)
    ensures
        climb(current, proof.push(element)) == (match climb(current, proof) {
            Err(error) => Err(error),
            Ok(reached) => match decode_hex(element, HASH_SIZE as int) {
                Err(error) => Err(error),
                Ok(sibling) => Ok(pair_hash(reached, sibling)),
            },
        }),
    decreases proof.len(),
{
    let longer = proof.push(element);
    if proof.len() == 0 {
        assert(longer[0] == element);
        assert(longer.drop_first() =~= Seq::<Seq<u8>>::empty());
        match decode_hex(element, HASH_SIZE as int) {
            Err(_) => {},
            Ok(sibling) => {
                assert(climb(pair_hash(current, sibling), longer.drop_first()) == Ok::<
                    Seq<u8>,
                    HexError,
                >(pair_hash(current, sibling)));
            },
        }
    } else {
        assert(longer[0] == proof[0]);
        assert(longer.drop_first() =~= proof.drop_first().push(element));
        match decode_hex(proof[0], HASH_SIZE as int) {
            Err(_) => {},
            Ok(sibling) => {
                lemma_climb_push(pair_hash(current, sibling), proof.drop_first(), element);
            },
        }
    }
}

/// In a tree whose nodes are parents of their subtrees, the inclusion proof of
/// every leaf leads from that leaf to the root, on whichever side the leaf and the
/// nodes above it stand.
pub proof fn lemma_tree_proof_verifies(tree: MerkleTree, route: Seq<bool>)
    requires
        tree_hashes_sized(tree),
        route_in_tree(tree, route),
    ensures
        climb(leaf_on_route(tree, route), proof_on_route(tree, route)) == Ok::<Seq<u8>, HexError>(
            tree_root(tree),
        ),
    decreases tree,
{
    match tree {
        MerkleTree::Leaf { hash } => {
            assert(proof_on_route(tree, route) =~= Seq::<Seq<u8>>::empty());
            assert(leaf_on_route(tree, route) == hash);
        },
        MerkleTree::Node { left, right } => {
            assert(tree_hashes_sized(*left) && tree_hashes_sized(*right));
            assert(tree_root(*left).len() == HASH_SIZE && tree_root(*right).len() == HASH_SIZE);
            let (inner, other) = if route[0] {
                (*right, *left)
            } else {
                (*left, *right)
            };
            let rest = route.drop_first();
            lemma_tree_proof_verifies(inner, rest);
            lemma_climb_push(
                leaf_on_route(inner, rest),
                proof_on_route(inner, rest),
                hex_encoding(tree_root(other)),
            );
            lemma_decode_hex_encoding(tree_root(other));
            lemma_pair_hash_symmetric(tree_root(*left), tree_root(*right));
        },
    }
}

/// The proof that a tree gives for one of its leaves is accepted against the
/// tree's root: where the leaf on `route` is the leaf of `sender` and `amount`, the
/// check of that leaf's inclusion proof against the root in hex says yes.
pub proof fn lemma_inclusion_proof_verifies(
    tree: MerkleTree,
    route: Seq<bool>,
    sender: Seq<char>,
    amount: nat,
)
    requires
        tree_hashes_sized(tree),
        route_in_tree(tree, route),
        leaf_on_route(tree, route) == leaf_hash(sender, amount),
    ensures
        proof_outcome(
            sender,
            amount,
            proof_on_route(tree, route),
            hex_encoding(tree_root(tree)),
        ) == Ok::<bool, HexError>(true),
{
    lemma_tree_proof_verifies(tree, route);
    lemma_decode_hex_encoding(tree_root(tree));
}

/// SHA-256 gives both inputs a digest of full size, and different digests where
/// the inputs differ.
pub open spec fn told_apart(x: Seq<u8>, y: Seq<u8>) -> bool {
    &&& sha256_digest(x).len() == HASH_SIZE
    &&& sha256_digest(y).len() == HASH_SIZE
    &&& x != y ==> sha256_digest(x) != sha256_digest(y)
}

/// SHA-256 tells apart what the two climbs hash, level by level, as far as both
/// proofs decode.
pub open spec fn climbs_told_apart(
    current_a: Seq<u8>,
    proof_a: Seq<Seq<u8>>,
    current_b: Seq<u8>,
    proof_b: Seq<Seq<u8>>,
) -> bool
    decreases proof_a.len(),
{
    if proof_a.len() == 0 || proof_b.len() == 0 {
        true
    } else {
        match (decode_hex(proof_a[0], HASH_SIZE as int), decode_hex(proof_b[0], HASH_SIZE as int)) {
            (Ok(sibling_a), Ok(sibling_b)) => {
                &&& told_apart(sorted_pair(current_a, sibling_a), sorted_pair(current_b, sibling_b))
                &&& climbs_told_apart(
                    pair_hash(current_a, sibling_a),
                    proof_a.drop_first(),
                    pair_hash(current_b, sibling_b),
                    proof_b.drop_first(),
                )
            },
            _ => true,
        }
    }
}

/// The two proofs have one length and decode alike everywhere but at position `k`.
pub open spec fn decode_alike_but_at(proof_a: Seq<Seq<u8>>, proof_b: Seq<Seq<u8>>, k: int) -> bool {
    &&& proof_a.len() == proof_b.len()
    &&& forall|i: int|
        0 <= i < proof_a.len() && i != k ==> decode_hex(#[trigger] proof_a[i], HASH_SIZE as int)
            == decode_hex(proof_b[i], HASH_SIZE as int)
}

/// Two climbs that start apart, or decode differently at position `k`, end apart,
/// as long as SHA-256 tells them apart on the way.
proof fn lemma_climbs_end_apart(
    current_a: Seq<u8>,
    proof_a: Seq<Seq<u8>>,
    current_b: Seq<u8>,
    proof_b: Seq<Seq<u8>>,
    k: int,
)
    requires
        current_a.len() == HASH_SIZE,
        current_b.len() == HASH_SIZE,
        decode_alike_but_at(proof_a, proof_b, k),
        climb(current_a, proof_a) is Ok,
        climbs_told_apart(current_a, proof_a, current_b, proof_b),
        current_a != current_b || (0 <= k < proof_a.len() && decode_hex(
            proof_a[k],
            HASH_SIZE as int,
        ) != decode_hex(proof_b[k], HASH_SIZE as int)),
        current_a != current_b ==> k < 0,
    ensures
        climb(current_b, proof_b) != climb(current_a, proof_a),
    decreases proof_a.len(),
{
    if proof_a.len() > 0 {
        let rest_a = proof_a.drop_first();
        let rest_b = proof_b.drop_first();
        let sibling_a = decode_hex(proof_a[0], HASH_SIZE as int)->Ok_0;
        assert forall|i: int| 0 <= i < rest_a.len() && i != k - 1 implies decode_hex(
            #[trigger] rest_a[i],
            HASH_SIZE as int,
        ) == decode_hex(rest_b[i], HASH_SIZE as int) by {
            assert(rest_a[i] == proof_a[i + 1] && rest_b[i] == proof_b[i + 1]);
        }
        if k > 0 {
            assert(rest_a[k - 1] == proof_a[k] && rest_b[k - 1] == proof_b[k]);
        }
        match decode_hex(proof_b[0], HASH_SIZE as int) {
            Err(_) => {},
            Ok(sibling_b) => {
                if current_a != current_b {
                    lemma_sorted_pair_symmetric(current_a, sibling_a);
                    lemma_sorted_pair_symmetric(current_b, sibling_a);
                    if sorted_pair(sibling_a, current_a) == sorted_pair(sibling_a, current_b) {
                        lemma_sorted_pair_cancels(sibling_a, current_a, current_b);
                    }
                    lemma_climbs_end_apart(
                        pair_hash(current_a, sibling_a),
                        rest_a,
                        pair_hash(current_b, sibling_b),
                        rest_b,
                        -1,
                    );
                } else if k == 0 {
                    if sorted_pair(current_a, sibling_a) == sorted_pair(current_a, sibling_b) {
                        lemma_sorted_pair_cancels(current_a, sibling_a, sibling_b);
                    }
                    lemma_climbs_end_apart(
                        pair_hash(current_a, sibling_a),
                        rest_a,
                        pair_hash(current_b, sibling_b),
                        rest_b,
                        -1,
                    );
                } else {
                    lemma_climbs_end_apart(
                        pair_hash(current_a, sibling_a),
                        rest_a,
                        pair_hash(current_b, sibling_b),
                        rest_b,
                        k - 1,
                    );
                }
            },
        }
    }
}

/// A proof with one element changed is not accepted. Where a proof is accepted for
/// a leaf and a second proof decodes like it everywhere but at one position, the
/// second is turned down or does not decode, unless SHA-256 fails to tell the two
/// climbs apart: a change of one element can only go unnoticed through a collision
/// of the hash.
pub proof fn lemma_changed_proof_is_refused(
    sender: Seq<char>,
    amount: nat,
    proof: Seq<Seq<u8>>,
    changed: Seq<Seq<u8>>,
    k: int,
    root: Seq<u8>,
)
    requires
        proof_outcome(sender, amount, proof, root) == Ok::<bool, HexError>(true),
        0 <= k < proof.len(),
        decode_alike_but_at(proof, changed, k),
        decode_hex(proof[k], HASH_SIZE as int) != decode_hex(changed[k], HASH_SIZE as int),
        leaf_hash(sender, amount).len() == HASH_SIZE,
        climbs_told_apart(leaf_hash(sender, amount), proof, leaf_hash(sender, amount), changed),
    ensures
        proof_outcome(sender, amount, changed, root) != Ok::<bool, HexError>(true),
{
    lemma_climbs_end_apart(
        leaf_hash(sender, amount),
        proof,
        leaf_hash(sender, amount),
        changed,
        k,
    );
}

} // verus!
