//! Echo packets of ICMPv4: the Internet checksum, requests and replies.

use vstd::prelude::*;

verus! {

/// ICMPv4 type of an echo request.
pub const ECHO_REQUEST: u8 = 8;

/// ICMPv4 type of an echo reply.
pub const ECHO_REPLY: u8 = 0;

/// The number that two bytes stand for in network order.
pub open spec fn be16(hi: u8, lo: u8) -> nat {
    (hi * 256 + lo) as nat
}

/// The `k`-th 16-bit word of `data` in network order; a missing last byte
/// counts as zero.
pub open spec fn word(data: Seq<u8>, k: int) -> nat {
    be16(data[2 * k], if 2 * k + 1 < data.len() { data[2 * k + 1] } else { 0 })
}

/// The sum of the first `n` words of `data`.
pub open spec fn word_sum_upto(data: Seq<u8>, n: nat) -> nat
    decreases n,
{
    if n == 0 {
        0
    } else {
        word_sum_upto(data, (n - 1) as nat) + word(data, n - 1)
    }
}

/// The sum of all words of `data`.
pub open spec fn word_sum(data: Seq<u8>) -> nat {
    word_sum_upto(data, ((data.len() + 1) / 2) as nat)
}

/// `sum` with its carries added back in until it fits in sixteen bits: the
/// representative of `sum` modulo `0xFFFF` that is zero only for zero.
pub open spec fn end_around(sum: nat) -> nat {
    if sum == 0 {
        0
    } else {
        ((sum - 1) % 0xFFFF + 1) as nat
    }
}

/// The Internet checksum of `data`: the complement of its end-around sum.
pub open spec fn checksum(data: Seq<u8>) -> nat {
    (0xFFFF - end_around(word_sum(data))) as nat
}

/// `data` with the 16-bit number `value` written at offset `at`.
pub open spec fn with_be16(data: Seq<u8>, at: int, value: nat) -> Seq<u8> {
    data.update(at, (value / 256) as u8).update(at + 1, (value % 256) as u8)
}

/// An echo request whose checksum field is still zero.
pub open spec fn unsigned_request(ident: u16, seq: u16) -> Seq<u8> {
    seq![
        ECHO_REQUEST,
        0,
        0,
        0,
        (ident as nat / 256) as u8,
        (ident as nat % 256) as u8,
        (seq as nat / 256) as u8,
        (seq as nat % 256) as u8,
        0x4E,
        0x45,
        0x54,
        0x4D,
    ]
}

/// The echo request for `ident` and `seq`, checksum included.
pub open spec fn echo_request(ident: u16, seq: u16) -> Seq<u8> {
    let blank = unsigned_request(ident, seq);
    with_be16(blank, 2, checksum(blank))
}

/// An ICMP echo reply for `ident` and `seq` starts at offset `off` of `data`.
pub open spec fn reply_at(data: Seq<u8>, off: int, ident: u16, seq: u16) -> bool {
    &&& 0 <= off
    &&& off + 8 <= data.len()
    &&& data[off] == ECHO_REPLY
    &&& data[off + 1] == 0
    &&& be16(data[off + 4], data[off + 5]) == ident
    &&& be16(data[off + 6], data[off + 7]) == seq
}

/// Length in bytes of the IPv4 header that `first`, its first byte, announces.
pub open spec fn ipv4_header_len(first: u8) -> int {
    (first % 16) * 4
}

/// `data` starts with an IPv4 header that leaves room for an ICMP header.
pub open spec fn has_ipv4_header(data: Seq<u8>) -> bool {
    &&& data.len() > 20
    &&& data[0] / 16 == 4
    &&& ipv4_header_len(data[0]) >= 20
    &&& data.len() >= ipv4_header_len(data[0]) + 8
}

/// `data`, as a socket delivers it, is an echo reply for `ident` and `seq`:
/// either bare, as a datagram socket hands it over, or behind the IPv4 header
/// that a raw socket leaves in place.
pub open spec fn echo_reply(data: Seq<u8>, ident: u16, seq: u16) -> bool {
    reply_at(data, 0, ident, seq) || (has_ipv4_header(data) && reply_at(
        data,
        ipv4_header_len(data[0]),
        ident,
        seq,
    ))
}

/// Two bytes as a number in network order.
fn join16(hi: u8, lo: u8) -> (value: u16)
    ensures
        value == be16(hi, lo),
{
    (hi as u16) * 256 + lo as u16
}

proof fn word_sum_upto_grows(data: Seq<u8>, a: nat, b: nat)
    requires
        a <= b,
    ensures
        word_sum_upto(data, a) <= word_sum_upto(data, b),
    decreases b,
{
    if a < b {
        word_sum_upto_grows(data, a, (b - 1) as nat);
    }
}

/// One step of the folding keeps the end-around sum.
proof fn fold_keeps(sum: nat)
    requires
        sum > 0xFFFF,
    ensures
        end_around(sum) == end_around((sum % 0x10000 + sum / 0x10000) as nat),
        0 < sum % 0x10000 + sum / 0x10000 < sum,
{
}

/// The Internet checksum (RFC 1071) of `data`.
///
/// The plain sum of the words is kept in 32 bits, so it must fit there; any
/// packet of up to 131074 bytes does.
pub fn internet_checksum(data: &[u8]) -> (sum: u16)
    requires
        word_sum(data@) <= u32::MAX,
    ensures
        sum == checksum(data@),
{
    let len: usize = data.len();
    let mut sum: u32 = 0;
    let mut i: usize = 0;
    while i + 1 < len
        invariant
            len == data@.len(),
            i <= len,
            i % 2 == 0,
            sum == word_sum_upto(data@, (i / 2) as nat),
            word_sum(data@) <= u32::MAX,
        decreases len - i,
    {
        proof {
            word_sum_upto_grows(data@, (i / 2 + 1) as nat, ((len + 1) / 2) as nat);
            assert(word(data@, (i / 2) as int) == be16(data@[i as int], data@[i + 1]));
        }
        sum = sum + join16(data[i], data[i + 1]) as u32;
        i = i + 2;
    }
    if i < len {
        proof {
            assert(word(data@, (i / 2) as int) == be16(data@[i as int], 0));
        }
        sum = sum + (data[i] as u32) * 256;
    }
    assert(sum == word_sum(data@));
    while sum > 0xFFFF
        invariant
            end_around(sum as nat) == end_around(word_sum(data@)),
        decreases sum,
    {
        proof {
            fold_keeps(sum as nat);
        }
        sum = sum % 0x10000 + sum / 0x10000;
    }
    0xFFFF - sum as u16
}

/// A buffer of at most 131074 bytes has a word sum that fits in 32 bits.
pub proof fn short_data_fits(data: Seq<u8>)
    requires
        data.len() <= 131074,
    ensures
        word_sum(data) <= u32::MAX,
{
    word_sum_upto_bounded(data, ((data.len() + 1) / 2) as nat);
}

proof fn word_sum_upto_bounded(data: Seq<u8>, n: nat)
    ensures
        word_sum_upto(data, n) <= n * 0xFFFF,
    decreases n,
{
    if n > 0 {
        word_sum_upto_bounded(data, (n - 1) as nat);
    }
}

/// Writing a word changes the sum by the difference of the two words.
proof fn word_sum_after_write(data: Seq<u8>, k: int, value: nat, n: nat)
    requires
        0 <= k,
        2 * k + 1 < data.len(),
        value <= 0xFFFF,
        2 * n <= data.len() + 1,
    ensures
        word_sum_upto(with_be16(data, 2 * k, value), n) == word_sum_upto(data, n) + (if k < n {
            value - word(data, k)
        } else {
            0
        }),
    decreases n,
{
    if n > 0 {
        word_sum_after_write(data, k, value, (n - 1) as nat);
        let after = with_be16(data, 2 * k, value);
        if k == n - 1 {
            assert(word(after, k) == value);
        } else {
            assert(word(after, n - 1) == word(data, n - 1));
        }
    }
}

/// A packet that carries its own checksum sums up to nothing: whatever the
/// packet, once its checksum, taken with a zero in the checksum field, is written
/// into that field, the checksum of the whole is zero.
pub proof fn checksum_cancels_itself(data: Seq<u8>, at: int)
    requires
        0 <= at,
        at % 2 == 0,
        at + 1 < data.len(),
        data[at] == 0,
        data[at + 1] == 0,
    ensures
        checksum(with_be16(data, at, checksum(data))) == 0,
{
    let k = at / 2;
    let c = checksum(data);
    word_sum_after_write(data, k, c, ((data.len() + 1) / 2) as nat);
    assert(word(data, k) == 0);
}

/// A checksum of zero does not survive a change of one word, unless the change is
/// between all zeros and all ones, which sixteen-bit one's complement arithmetic
/// cannot tell apart.
pub proof fn checksum_notices_a_changed_word(data: Seq<u8>, k: int, value: nat)
    requires
        0 <= k,
        2 * k + 1 < data.len(),
        value <= 0xFFFF,
        value != word(data, k),
        !(value == 0 && word(data, k) == 0xFFFF),
        !(value == 0xFFFF && word(data, k) == 0),
        checksum(data) == 0,
    ensures
        checksum(with_be16(data, 2 * k, value)) != 0,
{
    word_sum_after_write(data, k, value, ((data.len() + 1) / 2) as nat);
    let before = word_sum(data);
    let after = word_sum(with_be16(data, 2 * k, value));
    assert(before > 0 && before % 0xFFFF == 0);
    assert(after == before + value - word(data, k));
    assert(after % 0xFFFF != 0) by {
        let diff = value - word(data, k);
        assert(-0xFFFF < diff < 0xFFFF && diff != 0);
    }
}

/// Builds the echo request for `ident` and `seq`.
pub fn build_echo_request(ident: u16, seq: u16) -> (packet: [u8; 12])
    ensures
        packet@ == echo_request(ident, seq),
{
    let mut buf: [u8; 12] = [
        ECHO_REQUEST,
        0,
        0,
        0,
        (ident / 256) as u8,
        (ident % 256) as u8,
        (seq / 256) as u8,
        (seq % 256) as u8,
        0x4E,
        0x45,
        0x54,
        0x4D,
    ];
    assert(buf@ =~= unsigned_request(ident, seq));
    proof {
        short_data_fits(buf@);
    }
    let sum: u16 = internet_checksum(&buf);
    buf[2] = (sum / 256) as u8;
    buf[3] = (sum % 256) as u8;
    buf
}

/// An ICMP echo reply for `ident` and `seq` starts at `off`.
fn is_reply_at(data: &[u8], n: usize, off: usize, ident: u16, seq: u16) -> (yes: bool)
    requires
        n <= data@.len(),
    ensures
        yes == reply_at(data@.take(n as int), off as int, ident, seq),
{
    n >= 8 && off <= n - 8 && data[off] == ECHO_REPLY && data[off + 1] == 0 && join16(
        data[off + 4],
        data[off + 5],
    ) == ident && join16(data[off + 6], data[off + 7]) == seq
}

/// Whether the first `n` bytes of `buf` are an echo reply (type 0, code 0) for
/// `ident` and `seq`, bare or behind an IPv4 header.
pub fn is_valid_echo_reply(buf: &[u8], n: usize, ident: u16, seq: u16) -> (yes: bool)
    requires
        n <= buf@.len(),
    ensures
        yes == echo_reply(buf@.take(n as int), ident, seq),
{
    if is_reply_at(buf, n, 0, ident, seq) {
        return true;
    }
    if n > 20 && buf[0] / 16 == 4 {
        let header: usize = (buf[0] % 16) as usize * 4;
        if header >= 20 && n >= header + 8 {
            return is_reply_at(buf, n, header, ident, seq);
        }
    }
    false
}

/// Every request carries a checksum that makes the whole packet sum up to
/// nothing.
pub proof fn request_checksum_is_valid(ident: u16, seq: u16)
    ensures
        checksum(echo_request(ident, seq)) == 0,
{
    checksum_cancels_itself(unsigned_request(ident, seq), 2);
}

/// Requests for different identifiers or sequence numbers differ.
pub proof fn requests_are_distinct(ident1: u16, seq1: u16, ident2: u16, seq2: u16)
    requires
        ident1 != ident2 || seq1 != seq2,
    ensures
        echo_request(ident1, seq1) != echo_request(ident2, seq2),
{
    let a = echo_request(ident1, seq1);
    let b = echo_request(ident2, seq2);
    assert(be16(a[4], a[5]) == ident1 && be16(b[4], b[5]) == ident2);
    assert(be16(a[6], a[7]) == seq1 && be16(b[6], b[7]) == seq2);
}

/// A host answers a request by sending it back with the type of a reply and a new
/// checksum. That answer is accepted, bare, for the request's own identifier and
/// sequence number and for no others.
pub proof fn own_reply_is_accepted(ident: u16, seq: u16, sum: nat, ident2: u16, seq2: u16)
    requires
        sum <= 0xFFFF,
    ensures
        echo_reply(
            with_be16(echo_request(ident, seq).update(0, ECHO_REPLY), 2, sum),
            ident2,
            seq2,
        ) <==> (ident == ident2 && seq == seq2),
{
    let data = with_be16(echo_request(ident, seq).update(0, ECHO_REPLY), 2, sum);
    assert(be16(data[4], data[5]) == ident);
    assert(be16(data[6], data[7]) == seq);
}

/// The request itself, echoed by the local host, is not taken for a reply.
pub proof fn request_is_not_a_reply(ident: u16, seq: u16, ident2: u16, seq2: u16)
    ensures
        !echo_reply(echo_request(ident, seq), ident2, seq2),
{
}

/// Whatever precedes it in a well-formed IPv4 header, a reply that starts right
/// behind that header is accepted.
pub proof fn reply_behind_header_is_accepted(header: Seq<u8>, reply: Seq<u8>, ident: u16, seq: u16)
    requires
        header.len() >= 20,
        header[0] / 16 == 4,
        ipv4_header_len(header[0]) == header.len(),
        reply_at(reply, 0, ident, seq),
    ensures
        echo_reply(header + reply, ident, seq),
{
    let data = header + reply;
    assert forall|i: int| 0 <= i < reply.len() implies data[header.len() + i] == reply[i] by {}
}

/// An echo request has twelve bytes: type 8, code 0, a checksum, the identifier and the
/// sequence number in network order, and the letters `NETM`.
pub proof fn requests_have_their_layout(ident: u16, seq: u16)
    ensures
        ({
            let r = echo_request(ident, seq);
            &&& r.len() == 12
            &&& r[0] == 8 && r[1] == 0
            &&& r[4] * 256 + r[5] == ident
            &&& r[6] * 256 + r[7] == seq
            &&& r[8] as char == 'N' && r[9] as char == 'E' && r[10] as char == 'T' && r[11] as char
                == 'M'
        }),
{
}

/// The words of data add up: two bytes are the number they stand for in network order,
/// a single byte is the higher half of one, and data behind an even number of bytes
/// adds its own words.
pub proof fn words_add_up(a: Seq<u8>, b: Seq<u8>, hi: u8, lo: u8)
    requires
        a.len() % 2 == 0,
    ensures
        word_sum(a + b) == word_sum(a) + word_sum(b),
        word_sum(seq![hi, lo]) == hi * 256 + lo,
        word_sum(seq![hi]) == hi * 256,
        word_sum(Seq::empty()) == 0,
{
    assert(word_sum_upto(seq![hi, lo], 0) == 0);
    assert(word_sum_upto(seq![hi, lo], 1) == hi * 256 + lo);
    assert(word_sum_upto(seq![hi], 0) == 0);
    assert(word_sum_upto(seq![hi], 1) == hi * 256);
    let (m, n) = ((a.len() / 2) as nat, ((b.len() + 1) / 2) as nat);
    words_of_parts(a, b, n);
    assert(((a + b).len() + 1) / 2 == m + n);
}

proof fn words_of_parts(a: Seq<u8>, b: Seq<u8>, n: nat)
    requires
        a.len() % 2 == 0,
        2 * n <= b.len() + 1,
    ensures
        word_sum_upto(a + b, (a.len() / 2) as nat + n) == word_sum(a) + word_sum_upto(b, n),
    decreases n,
{
    let m = (a.len() / 2) as nat;
    if n > 0 {
        words_of_parts(a, b, (n - 1) as nat);
        assert(word(a + b, m + n - 1) == word(b, n - 1));
    } else {
        words_of_front(a, b, m);
        assert(((a.len() + 1) / 2) as nat == m);
    }
}

proof fn words_of_front(a: Seq<u8>, b: Seq<u8>, n: nat)
    requires
        2 * n <= a.len(),
    ensures
        word_sum_upto(a + b, n) == word_sum_upto(a, n),
    decreases n,
{
    if n > 0 {
        words_of_front(a, b, (n - 1) as nat);
        assert(word(a + b, n - 1) == word(a, n - 1));
    }
}

/// The checksum is the complement, in sixteen bits, of the sum of the words with its
/// carries added back in: together they make a multiple of `0xFFFF`, and only data
/// without anything in it has the checksum `0xFFFF`.
pub proof fn checksums_complement_the_sum(data: Seq<u8>)
    ensures
        checksum(data) <= 0xFFFF,
        (word_sum(data) + checksum(data)) % 0xFFFF == 0,
        checksum(data) == 0xFFFF <==> word_sum(data) == 0,
{
}

/// What is taken for a reply is one: at the start of the data, or behind a whole IPv4
/// header, stand type 0, code 0 and the very identifier and sequence number that were
/// asked for.
pub proof fn only_replies_are_accepted(data: Seq<u8>, ident: u16, seq: u16)
    requires
        echo_reply(data, ident, seq),
    ensures
        exists|at: int|
            {
                &&& 0 <= at && at + 8 <= data.len()
                &&& at == 0 || (data[0] / 16 == 4 && at == (data[0] % 16) * 4 && at >= 20)
                &&& #[trigger] data[at] == 0
                &&& data[at + 1] == 0
                &&& data[at + 4] * 256 + data[at + 5] == ident
                &&& data[at + 6] * 256 + data[at + 7] == seq
            },
{
    if reply_at(data, 0, ident, seq) {
        assert(data[0] == 0);
    } else {
        let at = ipv4_header_len(data[0]);
        assert(data[at] == 0);
    }
}

/// A bare reply is accepted, whatever it carries behind its header.
pub proof fn bare_replies_are_accepted(data: Seq<u8>, ident: u16, seq: u16)
    requires
        data.len() >= 8,
        data[0] == 0,
        data[1] == 0,
        data[4] * 256 + data[5] == ident,
        data[6] * 256 + data[7] == seq,
    ensures
        echo_reply(data, ident, seq),
{
}

/// A reply behind an IPv4 header of any length is accepted: the lower half of the first
/// byte tells the length of the header in words of four bytes.
pub proof fn replies_behind_a_header_are_accepted(data: Seq<u8>, at: int, ident: u16, seq: u16)
    requires
        at >= 20,
        at + 8 <= data.len(),
        data[0] / 16 == 4,
        (data[0] % 16) * 4 == at,
        data[at] == 0,
        data[at + 1] == 0,
        data[at + 4] * 256 + data[at + 5] == ident,
        data[at + 6] * 256 + data[at + 7] == seq,
    ensures
        echo_reply(data, ident, seq),
{
}

} // verus!
