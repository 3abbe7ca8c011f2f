//! Internet checksum (RFC 1071) plus the IPv4 and UDP checksums that packet
//! building and NAT rewriting need. Prefer NIC offload on the datapath; this is
//! the software path (packet construction, verification, and incremental NAT
//! fixups).

use crate::net::ip::proto;
use crate::net::wire;
use vstd::prelude::*;

verus! {

/// One's-complement modulus of 16-bit sums.
pub const ONES: u32 = 0xffff;

/// Sum of `data` as big-endian 16-bit words. A trailing odd byte is padded with
/// a zero low byte.
pub open spec fn word_sum(data: Seq<u8>) -> nat
    decreases data.len(),
{
    if data.len() == 0 {
        0
    } else if data.len() == 1 {
        (data[0] * 0x100) as nat
    } else {
        (wire::be16(data, 0) + word_sum(data.subrange(2, data.len() as int))) as nat
    }
}

/// Sum of the one's complements of the 16-bit words of `data`.
pub open spec fn inverse_word_sum(data: Seq<u8>) -> nat
    decreases data.len(),
{
    if data.len() == 0 {
        0
    } else if data.len() == 1 {
        (0xffff - data[0] * 0x100) as nat
    } else {
        (0xffff - wire::be16(data, 0) + inverse_word_sum(data.subrange(2, data.len() as int))) as nat
    }
}

/// The one's-complement sum that `n` folds to: the number from 1 to 0xffff that
/// is congruent to `n` modulo 0xffff, or zero for zero itself.
pub open spec fn folded(n: int) -> u16 {
    if n == 0 {
        0
    } else {
        ((n - 1) % 0xffff + 1) as u16
    }
}

/// The checksum that finishes an accumulated sum `n`.
pub open spec fn finished(n: int) -> u16 {
    (0xffff - folded(n)) as u16
}

/// Internet checksum of `data`.
pub open spec fn spec_checksum(data: Seq<u8>) -> u16 {
    finished(word_sum(data) as int % 0x1_0000_0000)
}

/// A checksum field value for which the sum of everything it covers, itself
/// taken as `sum`, verifies.
pub open spec fn verifies(sum: int) -> bool {
    finished(sum) == 0
}

proof fn lemma_split_words(acc: u32)
    ensures
        acc >> 16 == acc / 0x1_0000,
        acc & 0xffff == acc % 0x1_0000,
{
    assert(acc >> 16 == acc / 0x1_0000) by (bit_vector);
    assert(acc & 0xffff == acc % 0x1_0000) by (bit_vector);
}

/// Adding the carries back in keeps the folded value.
proof fn lemma_fold_step(acc: int)
    requires
        0x1_0000 <= acc,
    ensures
        0 < acc % 0x1_0000 + acc / 0x1_0000 < acc,
        folded(acc % 0x1_0000 + acc / 0x1_0000) == folded(acc),
{
    let q = acc / 0x1_0000;
    let r = acc % 0x1_0000;
    let n = q + r;
    assert(acc - 1 == (n - 1) + q * 0xffff);
    vstd::arithmetic::div_mod::lemma_mod_multiples_vanish(q, n - 1, 0xffff);
    assert((q * 0xffff + (n - 1)) % 0xffff == (n - 1) % 0xffff);
}

/// Fold a 32-bit accumulator of 16-bit one's-complement sums down to 16 bits.
fn fold(acc: u32) -> (r: u16)
    ensures
        r == folded(acc as int),
{
    let mut acc: u32 = acc;
    let ghost start = acc;
    proof {
        lemma_split_words(acc);
    }
    while acc >> 16 != 0
        invariant
            folded(acc as int) == folded(start as int),
            acc >> 16 == acc / 0x1_0000,
            acc & 0xffff == acc % 0x1_0000,
        decreases acc,
    {
        proof {
            lemma_fold_step(acc as int);
        }
        acc = (acc & 0xffff) + (acc >> 16);
        proof {
            lemma_split_words(acc);
        }
    }
    assert(acc < 0x1_0000);
    assert(folded(acc as int) == acc as u16);
    acc as u16
}

/// Add `data` (as big-endian 16-bit words) into a running one's-complement sum.
/// A trailing odd byte is padded with a zero low byte. Chain this across a
/// pseudo-header and payload, then call [`finish`].
pub fn accumulate(acc: u32, data: &[u8]) -> (r: u32)
    ensures
        r == (acc + word_sum(data@)) % 0x1_0000_0000,
{
    let mut sum: u32 = acc;
    let mut i: usize = 0;
    let n: usize = data.len();
    assert(data@.subrange(0, n as int) =~= data@);
    while i < n && n - i >= 2
        invariant
            i <= n,
            n == data@.len(),
            (acc + word_sum(data@)) % 0x1_0000_0000 == (sum + word_sum(
                data@.subrange(i as int, n as int),
            )) % 0x1_0000_0000,
        decreases n - i,
    {
        let word: u16 = data[i] as u16 * 0x100 + data[i + 1] as u16;
        proof {
            let rest = data@.subrange(i as int, n as int);
            assert(rest.subrange(2, rest.len() as int) =~= data@.subrange(i + 2, n as int));
            assert(wire::be16(rest, 0) == word);
        }
        sum = sum.wrapping_add(word as u32);
        i = i + 2;
    }
    if i < n {
        proof {
            let rest = data@.subrange(i as int, n as int);
            assert(rest[0] == data@[i as int]);
        }
        sum = sum.wrapping_add(data[i] as u32 * 0x100);
    }
    sum
}

/// Final checksum from an accumulator: fold the carries, then one's-complement.
pub fn finish(acc: u32) -> (r: u16)
    ensures
        r == finished(acc as int),
{
    0xffff - fold(acc)
}

/// Internet checksum over a single contiguous buffer.
pub fn checksum(data: &[u8]) -> (r: u16)
    ensures
        r == spec_checksum(data@),
{
    finish(accumulate(0, data))
}

/// IPv4 header checksum. `header` is the header bytes with the checksum field
/// already zeroed; the returned value goes into that field. Verifying instead?
/// Run [`checksum`] over the whole header (checksum included) and expect 0.
pub fn ipv4_header(header: &[u8]) -> (r: u16)
    ensures
        r == spec_checksum(header@),
{
    checksum(header)
}

/// A running sum kept modulo 2^32 can be extended without the lost carries.
proof fn lemma_running_sum(a: int, b: int)
    ensures
        (a % 0x1_0000_0000 + b) % 0x1_0000_0000 == (a + b) % 0x1_0000_0000,
{
}

/// Everything a UDP-over-IPv4 checksum covers, summed: the pseudo-header
/// (`src`, `dst`, protocol, length) and the UDP header and payload.
pub open spec fn udp_sum(src: Seq<u8>, dst: Seq<u8>, udp: Seq<u8>) -> int {
    word_sum(src) + word_sum(dst) + proto::UDP + udp.len() % 0x1_0000_0000 + word_sum(udp)
}

/// UDP-over-IPv4 checksum of `udp`, whose checksum field is zero.
pub open spec fn spec_udp_ipv4(src: Seq<u8>, dst: Seq<u8>, udp: Seq<u8>) -> u16 {
    let c = finished(udp_sum(src, dst, udp) % 0x1_0000_0000);
    if c == 0 {
        0xffff
    } else {
        c
    }
}

/// UDP-over-IPv4 checksum: pseudo-header (`src`, `dst`, proto, length) plus the
/// UDP header and payload. `udp` is the UDP header+payload with its checksum
/// field zeroed. A computed zero is transmitted as `0xFFFF` per RFC 768.
pub fn udp_ipv4(src: [u8; 4], dst: [u8; 4], udp: &[u8]) -> (r: u16)
    ensures
        r == spec_udp_ipv4(src@, dst@, udp@),
{
    let mut acc: u32 = 0;
    let ghost s1 = word_sum(src@) as int;
    let ghost s2 = s1 + word_sum(dst@);
    let ghost s3 = s2 + proto::UDP;
    let ghost s4 = s3 + udp@.len() as int % 0x1_0000_0000;
    acc = accumulate(acc, &src);
    assert(acc == s1 % 0x1_0000_0000);
    proof {
        lemma_running_sum(s1, word_sum(dst@) as int);
    }
    acc = accumulate(acc, &dst);
    assert(acc == s2 % 0x1_0000_0000);
    proof {
        lemma_running_sum(s2, proto::UDP as int);
    }
    acc = acc.wrapping_add(proto::UDP as u32);
    assert(acc == s3 % 0x1_0000_0000);
    let len: u32 = (udp.len() as u64 % 0x1_0000_0000u64) as u32;
    proof {
        lemma_running_sum(s3, len as int);
    }
    acc = acc.wrapping_add(len);
    assert(acc == s4 % 0x1_0000_0000);
    proof {
        lemma_running_sum(s4, word_sum(udp@) as int);
    }
    acc = accumulate(acc, udp);
    let c: u16 = finish(acc);
    if c == 0 {
        0xffff
    } else {
        c
    }
}

/// What an incrementally updated checksum covers, summed: `~HC + ~m + m'`.
pub open spec fn update_sum(checksum: u16, old_words: Seq<u8>, new_words: Seq<u8>) -> int {
    0xffff - checksum + inverse_word_sum(old_words) + word_sum(new_words)
}

/// The checksum after `old_words` changed to `new_words` in what it covers.
pub open spec fn spec_update(checksum: u16, old_words: Seq<u8>, new_words: Seq<u8>) -> u16 {
    finished(update_sum(checksum, old_words, new_words) % 0x1_0000_0000)
}

/// Add the one's complements of the 16-bit words of `data` into a running sum.
fn accumulate_inverse(acc: u32, data: &[u8]) -> (r: u32)
    ensures
        r == (acc + inverse_word_sum(data@)) % 0x1_0000_0000,
{
    let mut sum: u32 = acc;
    let mut i: usize = 0;
    let n: usize = data.len();
    assert(data@.subrange(0, n as int) =~= data@);
    while i < n && n - i >= 2
        invariant
            i <= n,
            n == data@.len(),
            (acc + inverse_word_sum(data@)) % 0x1_0000_0000 == (sum + inverse_word_sum(
                data@.subrange(i as int, n as int),
            )) % 0x1_0000_0000,
        decreases n - i,
    {
        let word: u16 = data[i] as u16 * 0x100 + data[i + 1] as u16;
        proof {
            let rest = data@.subrange(i as int, n as int);
            assert(rest.subrange(2, rest.len() as int) =~= data@.subrange(i + 2, n as int));
            assert(wire::be16(rest, 0) == word);
        }
        sum = sum.wrapping_add((0xffff - word) as u32);
        i = i + 2;
    }
    if i < n {
        proof {
            let rest = data@.subrange(i as int, n as int);
            assert(rest[0] == data@[i as int]);
        }
        sum = sum.wrapping_add(0xffff - data[i] as u32 * 0x100);
    }
    sum
}

/// Recompute a checksum after a field changes, per RFC 1624:
/// `HC' = ~(~HC + ~m + m')`, where `m`/`m'` are the old/new field bytes
/// (equal length, big-endian 16-bit words).
///
/// Apply once per independent field. A change that affects two checksums (e.g.
/// an IPv4 address lives in both the IP header checksum and the L4 pseudo-
/// header) needs one call per checksum. Chaining is fine: feed the result back
/// in for a second field. (For a UDP checksum, remember a computed 0 must be
/// stored as `0xFFFF`.)
pub fn update(checksum: u16, old_words: &[u8], new_words: &[u8]) -> (r: u16)
    ensures
        r == spec_update(checksum, old_words@, new_words@),
{
    let acc: u32 = accumulate_inverse((0xffff - checksum) as u32, old_words);
    finish(accumulate(acc, new_words))
}

/// The sum of an even-length part and what follows it adds up.
pub proof fn lemma_word_sum_concat(a: Seq<u8>, b: Seq<u8>)
    requires
        a.len() % 2 == 0,
    ensures
        word_sum(a + b) == word_sum(a) + word_sum(b),
    decreases a.len(),
{
    if a.len() == 0 {
        assert(a + b =~= b);
    } else {
        let rest = a.subrange(2, a.len() as int);
        lemma_word_sum_concat(rest, b);
        assert((a + b).subrange(2, (a + b).len() as int) =~= rest + b);
        assert(wire::be16(a + b, 0) == wire::be16(a, 0));
    }
}

/// The sum of an odd-length part and what follows it: the first byte that
/// follows completes the last word.
proof fn lemma_word_sum_odd_concat(a: Seq<u8>, b: Seq<u8>)
    requires
        a.len() % 2 == 1,
        b.len() > 0,
    ensures
        word_sum(a + b) == word_sum(a) + b[0] + word_sum(b.subrange(1, b.len() as int)),
    decreases a.len(),
{
    if a.len() == 1 {
        assert((a + b).subrange(2, (a + b).len() as int) =~= b.subrange(1, b.len() as int));
        assert((a + b)[0] == a[0] && (a + b)[1] == b[0]);
    } else {
        let rest = a.subrange(2, a.len() as int);
        lemma_word_sum_odd_concat(rest, b);
        assert((a + b).subrange(2, (a + b).len() as int) =~= rest + b);
        assert(wire::be16(a + b, 0) == wire::be16(a, 0));
    }
}

/// How what follows a part of `len` bytes adds to its sum: as words of its own,
/// or with its first byte as the other half of the part's last word.
spec fn rest_sum(len: nat, post: Seq<u8>) -> int {
    if len % 2 == 0 || post.len() == 0 {
        word_sum(post) as int
    } else {
        post[0] + word_sum(post.subrange(1, post.len() as int))
    }
}

proof fn lemma_word_sum_parts(a: Seq<u8>, post: Seq<u8>)
    ensures
        word_sum(a + post) == word_sum(a) + rest_sum(a.len(), post),
{
    if a.len() % 2 == 0 {
        lemma_word_sum_concat(a, post);
    } else if post.len() == 0 {
        assert(a + post =~= a);
    } else {
        lemma_word_sum_odd_concat(a, post);
    }
}

/// Replacing bytes of `s`, from the start of a word on, changes the sum by the
/// difference.
pub proof fn lemma_word_sum_splice(s: Seq<u8>, off: int, b: Seq<u8>)
    requires
        0 <= off,
        off % 2 == 0,
        off + b.len() <= s.len(),
    ensures
        word_sum(wire::splice(s, off, b)) == word_sum(s) - word_sum(
            s.subrange(off, off + b.len()),
        ) + word_sum(b),
{
    let n = s.len() as int;
    let pre = s.subrange(0, off);
    let mid = s.subrange(off, off + b.len());
    let post = s.subrange(off + b.len(), n);
    assert(s =~= pre + (mid + post));
    assert(wire::splice(s, off, b) =~= pre + (b + post));
    lemma_word_sum_concat(pre, mid + post);
    lemma_word_sum_parts(mid, post);
    lemma_word_sum_concat(pre, b + post);
    lemma_word_sum_parts(b, post);
}

/// A sum of 16-bit words is bounded by their number.
pub proof fn lemma_word_sum_bound(s: Seq<u8>)
    ensures
        word_sum(s) <= 0xffff * ((s.len() + 1) / 2),
    decreases s.len(),
{
    if s.len() >= 2 {
        lemma_word_sum_bound(s.subrange(2, s.len() as int));
    }
}

/// A sum of words and the sum of their complements make up all ones.
pub proof fn lemma_inverse_word_sum(s: Seq<u8>)
    ensures
        inverse_word_sum(s) + word_sum(s) == 0xffff * ((s.len() + 1) / 2),
    decreases s.len(),
{
    if s.len() >= 2 {
        lemma_inverse_word_sum(s.subrange(2, s.len() as int));
    }
}

/// A two-byte sequence sums to the number it holds.
pub proof fn lemma_word_sum_two(s: Seq<u8>)
    requires
        s.len() == 2,
    ensures
        word_sum(s) == wire::be16(s, 0),
{
    assert(s.subrange(2, 2).len() == 0);
    assert(word_sum(s.subrange(2, 2)) == 0);
}

/// Positive sums that are congruent modulo 0xffff fold to the same value.
pub proof fn lemma_folded_congruent(n: int, m: int)
    requires
        0 < n,
        0 < m,
        n % 0xffff == m % 0xffff,
    ensures
        folded(n) == folded(m),
        finished(n) == finished(m),
{
}

/// A sum verifies exactly if it is a positive multiple of 0xffff.
pub proof fn lemma_verifies(n: int)
    requires
        0 <= n,
    ensures
        verifies(n) <==> 0 < n && n % 0xffff == 0,
{
}

/// A sum and its checksum, in either representation of zero, verify together.
pub proof fn lemma_sum_and_checksum(s: int, c: u16)
    requires
        0 <= s,
        c == finished(s) || (finished(s) == 0 && c == 0xffff),
    ensures
        verifies(s + c),
{
    if s > 0 {
        assert((s + 0xffff - folded(s)) % 0xffff == 0);
    }
}

/// Filling a zeroed checksum field with the checksum of the data makes the
/// data verify: its checksum becomes zero.
pub proof fn law_checksum_verifies_to_zero(data: Seq<u8>, off: int)
    requires
        0 <= off,
        off % 2 == 0,
        off + 2 <= data.len() <= 0x1_fffe,
        wire::be16(data, off) == 0,
    ensures
        spec_checksum(wire::splice(data, off, wire::bytes16(spec_checksum(data)))) == 0,
{
    let c = spec_checksum(data);
    let filled = wire::splice(data, off, wire::bytes16(c));
    lemma_word_sum_bound(data);
    lemma_word_sum_bound(filled);
    lemma_word_sum_splice(data, off, wire::bytes16(c));
    lemma_word_sum_two(data.subrange(off, off + 2));
    lemma_word_sum_two(wire::bytes16(c));
    assert(wire::be16(data.subrange(off, off + 2), 0) == 0);
    let s = word_sum(data) as int;
    assert(word_sum(filled) == s + c);
    lemma_sum_and_checksum(s, c);
}

/// Filling a zeroed UDP checksum field with [`udp_ipv4`] makes the datagram
/// verify against its pseudo-header.
pub proof fn law_udp_checksum_verifies(src: Seq<u8>, dst: Seq<u8>, udp: Seq<u8>)
    requires
        src.len() == 4,
        dst.len() == 4,
        8 <= udp.len() <= 0xffff,
        wire::be16(udp, 6) == 0,
    ensures
        verifies(
            udp_sum(
                src,
                dst,
                wire::splice(udp, 6, wire::bytes16(spec_udp_ipv4(src, dst, udp))),
            ) % 0x1_0000_0000,
        ),
{
    let c = spec_udp_ipv4(src, dst, udp);
    let filled = wire::splice(udp, 6, wire::bytes16(c));
    lemma_word_sum_bound(src);
    lemma_word_sum_bound(dst);
    lemma_word_sum_bound(udp);
    lemma_word_sum_bound(filled);
    lemma_word_sum_splice(udp, 6, wire::bytes16(c));
    lemma_word_sum_two(udp.subrange(6, 8));
    lemma_word_sum_two(wire::bytes16(c));
    assert(wire::be16(udp.subrange(6, 8), 0) == 0);
    let s = udp_sum(src, dst, udp);
    assert(udp_sum(src, dst, filled) == s + c);
    assert(0 <= s < 0xffff_0000);
    lemma_sum_and_checksum(s, c);
}

/// Updating a checksum for a changed field gives the checksum that a full
/// recomputation over the changed data gives. The field starts at a word; it
/// may end in the middle of one. (Data that becomes all zero through the change
/// is left out: its checksum has two representations, and the update gives the
/// other one. So are lengths at which a running sum of 32 bits can overflow.)
pub proof fn law_update_matches_recompute(data: Seq<u8>, off: int, new_words: Seq<u8>)
    requires
        0 <= off,
        off % 2 == 0,
        off + new_words.len() <= data.len() <= 0x1_fffe,
        new_words.len() <= 0x1_0000,
        word_sum(wire::splice(data, off, new_words)) != 0,
    ensures
        spec_update(
            spec_checksum(data),
            data.subrange(off, off + new_words.len()),
            new_words,
        ) == spec_checksum(wire::splice(data, off, new_words)),
{
    let old_words = data.subrange(off, off + new_words.len());
    let changed = wire::splice(data, off, new_words);
    let c = spec_checksum(data);
    let s = word_sum(data) as int;
    let t = word_sum(changed) as int;
    let u = update_sum(c, old_words, new_words);
    let lost = word_sum(old_words) as int;
    let gained = word_sum(new_words) as int;
    let k = lemma_changed_sums(data, off, new_words, c);
    assert(c == finished(s));
    lemma_updated_sum(s, lost, gained, k, c, u);
}

/// How the sums of the data, of what is replaced and of what replaces it are
/// related.
proof fn lemma_changed_sums(data: Seq<u8>, off: int, new_words: Seq<u8>, c: u16) -> (k: int)
    requires
        0 <= off,
        off % 2 == 0,
        off + new_words.len() <= data.len() <= 0x1_fffe,
        new_words.len() <= 0x1_0000,
    ensures
        ({
            let old_words = data.subrange(off, off + new_words.len());
            let s = word_sum(data) as int;
            let t = word_sum(wire::splice(data, off, new_words)) as int;
            let lost = word_sum(old_words) as int;
            let gained = word_sum(new_words) as int;
            &&& 0 <= k <= 0x8000
            &&& lost <= s < 0x1_0000_0000
            &&& lost <= 0xffff * k
            &&& gained <= 0xffff * k
            &&& t == s - lost + gained
            &&& t < 0x1_0000_0000
            &&& update_sum(c, old_words, new_words) == 0xffff - c + 0xffff * k - lost + gained
        }),
{
    let old_words = data.subrange(off, off + new_words.len());
    let changed = wire::splice(data, off, new_words);
    lemma_word_sum_bound(data);
    lemma_word_sum_bound(changed);
    lemma_word_sum_bound(old_words);
    lemma_word_sum_bound(new_words);
    lemma_inverse_word_sum(old_words);
    lemma_word_sum_splice(data, off, new_words);
    lemma_word_sum_part(data, off, new_words.len() as int);
    ((old_words.len() + 1) / 2) as int
}

/// A sum and what it folds to differ by a multiple of 0xffff.
pub proof fn lemma_folded_offset(n: int) -> (q: int)
    requires
        0 <= n,
    ensures
        0 <= q,
        folded(n) == n - 0xffff * q,
        n > 0 ==> folded(n) > 0,
{
    if n == 0 {
        0
    } else {
        vstd::arithmetic::div_mod::lemma_fundamental_div_mod(n - 1, 0xffff);
        (n - 1) / 0xffff
    }
}

/// Adding a multiple of 0xffff keeps the residue.
pub proof fn lemma_same_residue(n: int, m: int, q: int)
    requires
        n == m + 0xffff * q,
    ensures
        n % 0xffff == m % 0xffff,
{
    vstd::arithmetic::div_mod::lemma_mod_multiples_vanish(q, m, 0xffff);
}

/// The sum `s` has the checksum `c`, and words that add up to `lost` are
/// replaced by words that add up to `gained`: what the update sums up finishes
/// like the new sum.
#[verifier::spinoff_prover]
proof fn lemma_updated_sum(s: int, lost: int, gained: int, k: int, c: u16, u: int)
    requires
        0 <= lost <= s < 0x1_0000_0000,
        lost <= 0xffff * k,
        0 <= k <= 0x8000,
        0 <= gained <= 0xffff * k,
        c == finished(s),
        s - lost + gained != 0,
        u == 0xffff - c + 0xffff * k - lost + gained,
    ensures
        0 <= u < 0x1_0000_0000,
        finished(u) == finished(s - lost + gained),
{
    let q = lemma_folded_offset(s);
    let t = s - lost + gained;
    assert(c == 0xffff - folded(s));
    assert(u == t + 0xffff * (k - q));
    lemma_same_residue(u, t, k - q);
    assert(u > 0) by {
        if s > 0 {
            assert(folded(s) > 0);
        }
    }
    lemma_folded_congruent(u, t);
}

/// A part that starts at a word sums to no more than everything around it.
proof fn lemma_word_sum_part(s: Seq<u8>, off: int, n: int)
    requires
        0 <= off,
        off % 2 == 0,
        0 <= n,
        off + n <= s.len(),
    ensures
        word_sum(s.subrange(off, off + n)) <= word_sum(s),
{
    let pre = s.subrange(0, off);
    let mid = s.subrange(off, off + n);
    let post = s.subrange(off + n, s.len() as int);
    assert(s =~= pre + (mid + post));
    lemma_word_sum_concat(pre, mid + post);
    lemma_word_sum_parts(mid, post);
}

/// What a sum of 16-bit words is: words are taken two bytes at a time, the first
/// byte the more significant, and a last single byte counts as one followed by
/// zero.
pub proof fn law_words_add_up(a: u8, b: u8, rest: Seq<u8>)
    ensures
        word_sum(Seq::empty()) == 0,
        word_sum(seq![a]) == 256 * a,
        word_sum(seq![a, b] + rest) == 256 * a + b + word_sum(rest),
        inverse_word_sum(Seq::empty()) == 0,
        inverse_word_sum(seq![a]) == 0xffff - 256 * a,
        inverse_word_sum(seq![a, b] + rest) == 0xffff - (256 * a + b) + inverse_word_sum(rest),
{
    let t = seq![a, b] + rest;
    assert(t.subrange(2, t.len() as int) =~= rest);
}

/// What a checksum is: the number that, added to the words it covers, makes a
/// multiple of 0xffff. Of the two representations of zero it is the one without
/// bits, unless all the words are zero.
pub proof fn law_checksum_completes_the_sum(data: Seq<u8>, src: Seq<u8>, dst: Seq<u8>, udp: Seq<u8>)
    requires
        data.len() <= 0x1_fffe,
        src.len() == 4,
        dst.len() == 4,
        udp.len() <= 0xffff,
    ensures
        (word_sum(data) + spec_checksum(data)) % 0xffff == 0,
        spec_checksum(data) == 0xffff <==> word_sum(data) == 0,
        (word_sum(src) + word_sum(dst) + 17 + udp.len() + word_sum(udp) + spec_udp_ipv4(
            src,
            dst,
            udp,
        )) % 0xffff == 0,
        spec_udp_ipv4(src, dst, udp) != 0,
{
    lemma_word_sum_bound(data);
    lemma_word_sum_bound(src);
    lemma_word_sum_bound(dst);
    lemma_word_sum_bound(udp);
    let s = word_sum(data) as int;
    lemma_completes(s);
    lemma_completes(udp_sum(src, dst, udp));
    assert(udp_sum(src, dst, udp) == word_sum(src) + word_sum(dst) + 17 + udp.len() + word_sum(udp));
}

proof fn lemma_completes(s: int)
    requires
        0 <= s,
    ensures
        (s + finished(s)) % 0xffff == 0,
        finished(s) == 0xffff <==> s == 0,
{
    let q = lemma_folded_offset(s);
    lemma_same_residue(s + finished(s), 0, q + 1);
}

/// What an update is, in numbers: the complement of the sum of the complements
/// of the old checksum and of the old words, and of the new words.
pub proof fn law_update_in_numbers(c: u16, old_words: Seq<u8>, new_words: Seq<u8>)
    requires
        old_words.len() == new_words.len() <= 0x1_0000,
    ensures
        ({
            let words = (old_words.len() + 1) / 2;
            let n = 0xffff - c + (0xffff * words - word_sum(old_words)) + word_sum(new_words);
            let r = spec_update(c, old_words, new_words);
            &&& (r + n) % 0xffff == 0
            &&& r == 0xffff <==> n == 0
        }),
{
    lemma_word_sum_bound(old_words);
    lemma_word_sum_bound(new_words);
    lemma_inverse_word_sum(old_words);
    let u = update_sum(c, old_words, new_words);
    assert(0 <= u < 0x1_0000_0000);
    lemma_completes(u);
}

} // verus!
