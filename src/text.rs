//! ASCII renderings of numbers and IP addresses.
use vstd::prelude::*;
use crate::octets::bytes_equal;

verus! {

/// ASCII decimal digits of `n`, without leading zeros.
pub open spec fn dec_digits(n: nat) -> Seq<u8>
    decreases n,
{
    if n < 10 {
        seq![(48 + n) as u8]
    } else {
        dec_digits(n / 10).push((48 + n % 10) as u8)
    }
}

/// The lowercase hexadecimal digit for `d < 16`.
pub open spec fn hex_digit(d: nat) -> u8 {
    if d < 10 {
        (48 + d) as u8
    } else {
        (87 + d) as u8
    }
}

/// Lowercase hexadecimal digits of `n`, without leading zeros.
pub open spec fn hex_digits(n: nat) -> Seq<u8>
    decreases n,
{
    if n < 16 {
        seq![hex_digit(n)]
    } else {
        hex_digits(n / 16).push(hex_digit(n % 16))
    }
}

/// Appends the decimal digits of `n` to `v`.
pub fn push_decimal(v: &mut Vec<u8>, n: u16)
    ensures
        final(v)@ == old(v)@ + dec_digits(n as nat),
    decreases n,
{
    if n < 10 {
        v.push(48 + n as u8);
        assert(final(v)@ =~= old(v)@ + dec_digits(n as nat));
    } else {
        push_decimal(v, n / 10);
        v.push(48 + (n % 10) as u8);
        assert(final(v)@ =~= old(v)@ + dec_digits(n as nat));
    }
}

/// Appends the lowercase hexadecimal digits of `n` to `v`.
pub fn push_hex(v: &mut Vec<u8>, n: u16)
    ensures
        final(v)@ == old(v)@ + hex_digits(n as nat),
    decreases n,
{
    if n < 16 {
        let d: u8 = if n < 10 { 48 + n as u8 } else { 87 + n as u8 };
        v.push(d);
        assert(final(v)@ =~= old(v)@ + hex_digits(n as nat));
    } else {
        push_hex(v, n / 16);
        let m = n % 16;
        let d: u8 = if m < 10 { 48 + m as u8 } else { 87 + m as u8 };
        v.push(d);
        assert(final(v)@ =~= old(v)@ + hex_digits(n as nat));
    }
}

/// Dotted-quad text of four bytes.
pub open spec fn ipv4_text(b: Seq<u8>) -> Seq<u8> {
    dec_digits(b[0] as nat) + seq![46u8] + dec_digits(b[1] as nat) + seq![46u8] + dec_digits(
        b[2] as nat,
    ) + seq![46u8] + dec_digits(b[3] as nat)
}

/// The `i`-th 16-bit group of an IPv6 address.
pub open spec fn group(b: Seq<u8>, i: int) -> nat {
    (b[2 * i] as nat) * 256 + (b[2 * i + 1] as nat)
}

/// Groups `lo..hi` in hexadecimal, joined by colons.
pub open spec fn groups_text(b: Seq<u8>, lo: int, hi: int) -> Seq<u8>
    decreases hi - lo,
{
    if hi <= lo {
        Seq::empty()
    } else if hi == lo + 1 {
        hex_digits(group(b, lo))
    } else {
        groups_text(b, lo, hi - 1) + seq![58u8] + hex_digits(group(b, hi - 1))
    }
}

/// How many zero groups follow one another from group `i` on.
pub open spec fn zero_run(b: Seq<u8>, i: int) -> nat
    decreases 8 - i,
{
    if i >= 8 || group(b, i) != 0 {
        0
    } else {
        1 + zero_run(b, i + 1)
    }
}

/// The longest run of zero groups that starts at or after group `i`, as
/// (start, length); the earliest one where several are longest.
pub open spec fn longest_zero_run(b: Seq<u8>, i: int) -> (int, nat)
    decreases 8 - i,
{
    if i >= 8 {
        (8, 0)
    } else {
        let rest = longest_zero_run(b, i + 1);
        let here = zero_run(b, i);
        if here > 0 && here >= rest.1 {
            (i, here)
        } else {
            rest
        }
    }
}

/// The IPv4-mapped addresses `::ffff:a.b.c.d`: ten zero bytes, then two
/// bytes 255.
pub open spec fn is_ipv4_mapped(b: Seq<u8>) -> bool {
    &&& forall|i: int| 0 <= i < 10 ==> b[i] == 0
    &&& b[10] == 255
    &&& b[11] == 255
}

/// IPv6 text of sixteen bytes: an IPv4-mapped address as `::ffff:`
/// followed by the dotted quad of its last four bytes; any other address in
/// lowercase hexadecimal groups without leading zeros, the longest run of
/// two or more zero groups replaced by `::`.
pub open spec fn ipv6_text(b: Seq<u8>) -> Seq<u8> {
    if is_ipv4_mapped(b) {
        seq![58u8, 58, 102, 102, 102, 102, 58] + ipv4_text(b.subrange(12, 16))
    } else {
        ipv6_hex_text(b)
    }
}

/// The hexadecimal IPv6 text of sixteen bytes.
pub open spec fn ipv6_hex_text(b: Seq<u8>) -> Seq<u8> {
    let run = longest_zero_run(b, 0);
    if run.1 < 2 {
        groups_text(b, 0, 8)
    } else {
        groups_text(b, 0, run.0) + seq![58u8, 58u8] + groups_text(b, run.0 + run.1, 8)
    }
}

/// Writes the dotted-quad text of four bytes.
pub fn ipv4_bytes_text(b: &[u8]) -> (r: Vec<u8>)
    requires
        b@.len() == 4,
    ensures
        r@ == ipv4_text(b@),
{
    let mut r: Vec<u8> = Vec::new();
    push_decimal(&mut r, b[0] as u16);
    r.push(46);
    push_decimal(&mut r, b[1] as u16);
    r.push(46);
    push_decimal(&mut r, b[2] as u16);
    r.push(46);
    push_decimal(&mut r, b[3] as u16);
    assert(r@ =~= ipv4_text(b@));
    r
}

fn group_at(b: &[u8], i: usize) -> (r: u16)
    requires
        b@.len() == 16,
        i < 8,
    ensures
        r as nat == group(b@, i as int),
{
    (b[2 * i] as u16) * 256 + (b[2 * i + 1] as u16)
}

fn push_groups(v: &mut Vec<u8>, b: &[u8], lo: usize, hi: usize)
    requires
        b@.len() == 16,
        lo <= hi <= 8,
    ensures
        final(v)@ == old(v)@ + groups_text(b@, lo as int, hi as int),
{
    let ghost start = v@;
    let mut i: usize = lo;
    assert(groups_text(b@, lo as int, lo as int) =~= Seq::<u8>::empty());
    assert(v@ =~= start + groups_text(b@, lo as int, lo as int));
    while i < hi
        invariant
            b@.len() == 16,
            lo <= i <= hi <= 8,
            v@ == start + groups_text(b@, lo as int, i as int),
        decreases hi - i,
    {
        if i > lo {
            v.push(58);
        }
        push_hex(v, group_at(b, i));
        i = i + 1;
        assert(v@ =~= start + groups_text(b@, lo as int, i as int));
    }
}

fn zero_run_at(b: &[u8], i: usize) -> (r: usize)
    requires
        b@.len() == 16,
        i <= 8,
    ensures
        r as nat == zero_run(b@, i as int),
        i + r <= 8,
    decreases 8 - i,
{
    proof {
        lemma_zero_run_bound(b@, i as int);
    }
    if i >= 8 || group_at(b, i) != 0 {
        0
    } else {
        1 + zero_run_at(b, i + 1)
    }
}

fn longest_zero_run_from(b: &[u8], i: usize) -> (r: (usize, usize))
    requires
        b@.len() == 16,
        i <= 8,
    ensures
        r.0 as int == longest_zero_run(b@, i as int).0,
        r.1 as nat == longest_zero_run(b@, i as int).1,
        r.0 + r.1 <= 8,
    decreases 8 - i,
{
    if i >= 8 {
        (8, 0)
    } else {
        let rest = longest_zero_run_from(b, i + 1);
        let here = zero_run_at(b, i);
        proof {
            lemma_zero_run_bound(b@, i as int);
        }
        if here > 0 && here >= rest.1 {
            (i, here)
        } else {
            rest
        }
    }
}

proof fn lemma_zero_run_bound(b: Seq<u8>, i: int)
    requires
        0 <= i <= 8,
    ensures
        i + zero_run(b, i) <= 8,
    decreases 8 - i,
{
    if i < 8 && group(b, i) == 0 {
        lemma_zero_run_bound(b, i + 1);
    }
}

/// Writes the IPv6 text of sixteen bytes.
pub fn ipv6_bytes_text(b: &[u8]) -> (r: Vec<u8>)
    requires
        b@.len() == 16,
    ensures
        r@ == ipv6_text(b@),
{
    let mut mapped = b[10] == 255 && b[11] == 255;
    let mut i: usize = 0;
    while i < 10
        invariant
            i <= 10,
            b@.len() == 16,
            mapped == (b@[10] == 255 && b@[11] == 255 && forall|j: int| 0 <= j < i ==> b@[j] == 0),
        decreases 10 - i,
    {
        if b[i] != 0 {
            mapped = false;
        }
        i = i + 1;
    }
    if mapped {
        let mut r: Vec<u8> = vec![58u8, 58, 102, 102, 102, 102, 58];
        let quad = crate::octets::copy_range(b, 12, 16);
        let tail = ipv4_bytes_text(quad.as_slice());
        crate::octets::append_bytes(&mut r, tail.as_slice());
        assert(r@ =~= ipv6_text(b@));
        return r;
    }
    let run = longest_zero_run_from(b, 0);
    let mut r: Vec<u8> = Vec::new();
    if run.1 < 2 {
        push_groups(&mut r, b, 0, 8);
    } else {
        push_groups(&mut r, b, 0, run.0);
        r.push(58);
        r.push(58);
        push_groups(&mut r, b, run.0 + run.1, 8);
    }
    assert(r@ =~= ipv6_text(b@));
    r
}

/// `t` is the text of the address `b`: dotted-quad for four bytes, IPv6
/// text for sixteen.
pub open spec fn is_ip_text(t: Seq<u8>, b: Seq<u8>) -> bool {
    (b.len() == 4 && t == ipv4_text(b)) || (b.len() == 16 && t == ipv6_text(b))
}

/// `c` is a decimal digit, or where `hex`, a hexadecimal one of either case.
pub open spec fn is_digit(c: u8, hex: bool) -> bool {
    (48 <= c <= 57) || (hex && ((97 <= c <= 102) || (65 <= c <= 70)))
}

/// `ip` is what the text `t` reads as: the address that Rust's standard
/// library parses it to, or none where it parses to no address.
pub open spec fn reads_as_ip(t: Seq<u8>, ip: Option<Seq<u8>>) -> bool {
    ip == std_ip(t)
}

/// The value of a digit character.
pub open spec fn digit_val(c: u8) -> nat {
    if c <= 57 {
        (c - 48) as nat
    } else if c >= 97 {
        (c - 87) as nat
    } else {
        (c - 55) as nat
    }
}

/// The value of the digits `d` in base `base`.
pub open spec fn run_value(d: Seq<u8>, base: nat) -> nat
    decreases d.len(),
{
    if d.len() == 0 {
        0
    } else {
        run_value(d.drop_last(), base) * base + digit_val(d.last())
    }
}

proof fn lemma_dec_digits(n: nat)
    ensures
        forall|i: int| 0 <= i < dec_digits(n).len() ==> is_digit(#[trigger] dec_digits(n)[i], false),
        dec_digits(n).len() >= 1,
        n < 10 ==> dec_digits(n).len() == 1,
        n < 100 ==> dec_digits(n).len() <= 2,
        n < 1000 ==> dec_digits(n).len() <= 3,
        run_value(dec_digits(n), 10) == n,
    decreases n,
{
    if n >= 10 {
        lemma_dec_digits(n / 10);
        let d = dec_digits(n);
        assert(d.drop_last() =~= dec_digits(n / 10));
        assert(d.last() == (48 + n % 10) as u8);
        assert(digit_val(d.last()) == n % 10);
        assert(n == (n / 10) * 10 + n % 10);
    } else {
        assert(dec_digits(n).drop_last() =~= Seq::<u8>::empty());
        assert(run_value(Seq::<u8>::empty(), 10) == 0);
    }
}

proof fn lemma_hex_digits(n: nat)
    ensures
        forall|i: int| 0 <= i < hex_digits(n).len() ==> is_digit(#[trigger] hex_digits(n)[i], true),
        forall|i: int| 0 <= i < hex_digits(n).len() ==> #[trigger] hex_digits(n)[i] != 58,
        hex_digits(n).len() >= 1,
        n < 16 ==> hex_digits(n).len() == 1,
        n < 256 ==> hex_digits(n).len() <= 2,
        n < 4096 ==> hex_digits(n).len() <= 3,
        n < 65536 ==> hex_digits(n).len() <= 4,
        run_value(hex_digits(n), 16) == n,
    decreases n,
{
    if n >= 16 {
        lemma_hex_digits(n / 16);
        let d = hex_digits(n);
        assert(d.drop_last() =~= hex_digits(n / 16));
        assert(d.last() == hex_digit(n % 16));
        assert(digit_val(d.last()) == n % 16);
        assert(n == (n / 16) * 16 + n % 16);
    } else {
        assert(hex_digits(n).drop_last() =~= Seq::<u8>::empty());
        assert(run_value(Seq::<u8>::empty(), 16) == 0);
    }
}

/// Where field `k` of the dotted-quad text of `b` ends.
pub open spec fn ipv4_field_end(b: Seq<u8>, k: int) -> int
    decreases k,
{
    if k <= 0 {
        dec_digits(b[0] as nat).len() as int
    } else {
        ipv4_field_end(b, k - 1) + 1 + dec_digits(b[k] as nat).len()
    }
}

/// Where field `k` of the dotted-quad text of `b` starts.
pub open spec fn ipv4_field_start(b: Seq<u8>, k: int) -> int {
    if k <= 0 {
        0
    } else {
        ipv4_field_end(b, k - 1) + 1
    }
}

proof fn lemma_ipv4_layout(b: Seq<u8>)
    requires
        b.len() == 4,
    ensures
        forall|k: int| 0 <= k < 4 ==> ipv4_text(b).subrange(ipv4_field_start(b, k), #[trigger] ipv4_field_end(b, k)) == dec_digits(b[k] as nat),
        forall|k: int| 0 <= k < 3 ==> ipv4_text(b)[#[trigger] ipv4_field_end(b, k)] == 46,
        forall|k: int| 0 <= k < 3 ==> #[trigger] ipv4_field_end(b, k) < ipv4_field_end(b, 3),
        forall|k: int| 0 <= k < 4 ==> #[trigger] ipv4_field_end(b, k) == ipv4_field_start(b, k) + dec_digits(b[k] as nat).len(),
        ipv4_field_end(b, 3) == ipv4_text(b).len(),
{
    let t = ipv4_text(b);
    let d0 = dec_digits(b[0] as nat);
    let d1 = dec_digits(b[1] as nat);
    let d2 = dec_digits(b[2] as nat);
    let d3 = dec_digits(b[3] as nat);
    assert(t.subrange(ipv4_field_start(b, 0), ipv4_field_end(b, 0)) =~= d0);
    assert(t.subrange(ipv4_field_start(b, 1), ipv4_field_end(b, 1)) =~= d1);
    assert(t.subrange(ipv4_field_start(b, 2), ipv4_field_end(b, 2)) =~= d2);
    assert(t.subrange(ipv4_field_start(b, 3), ipv4_field_end(b, 3)) =~= d3);
    assert forall|k: int| 0 <= k < 4 implies t.subrange(ipv4_field_start(b, k), #[trigger] ipv4_field_end(b, k)) == dec_digits(b[k] as nat) by {
        if k == 0 {
        } else if k == 1 {
        } else if k == 2 {
        } else {
        }
    }
}

/// The groups `lo..hi` of an address as 16-bit values.
pub open spec fn group_seq(b: Seq<u8>, lo: int, hi: int) -> Seq<u16> {
    Seq::new((hi - lo) as nat, |k: int| group(b, lo + k) as u16)
}

/// Where group `k` (counted from `lo`) starts in the text of groups `lo..`.
pub open spec fn group_start(b: Seq<u8>, lo: int, k: int) -> int {
    if k <= 0 {
        0
    } else {
        groups_text(b, lo, lo + k).len() + 1int
    }
}

proof fn lemma_groups_prefix(b: Seq<u8>, lo: int, m: int, hi: int)
    requires
        lo <= m <= hi,
    ensures
        groups_text(b, lo, m).len() <= groups_text(b, lo, hi).len(),
        groups_text(b, lo, hi).take(groups_text(b, lo, m).len() as int) == groups_text(b, lo, m),
        m < hi ==> groups_text(b, lo, m).len() < groups_text(b, lo, hi).len(),
        lo < m < hi ==> groups_text(b, lo, hi)[groups_text(b, lo, m).len() as int] == 58,
    decreases hi - m,
{
    if m < hi {
        lemma_groups_prefix(b, lo, m, hi - 1);
        lemma_hex_digits(group(b, hi - 1));
        let g = groups_text(b, lo, hi);
        let gm = groups_text(b, lo, m);
        if hi == lo + 1 {
            assert(gm =~= Seq::<u8>::empty());
            assert(g.take(0) =~= gm);
        } else {
            let g1 = groups_text(b, lo, hi - 1);
            assert(g == g1 + seq![58u8] + hex_digits(group(b, hi - 1)));
            assert(g.take(gm.len() as int) =~= g1.take(gm.len() as int));
        }
    } else {
        assert(groups_text(b, lo, hi).take(groups_text(b, lo, hi).len() as int) =~= groups_text(b, lo, hi));
    }
}

/// Group `k` sits at `group_start`, as its hexadecimal digits, followed by a
/// colon unless it is the last.
proof fn lemma_group_at(b: Seq<u8>, lo: int, hi: int, k: int)
    requires
        0 <= k < hi - lo,
    ensures
        ({
            let g = groups_text(b, lo, hi);
            let s = group_start(b, lo, k);
            let h = hex_digits(group(b, lo + k));
            &&& s + h.len() <= g.len()
            &&& g.subrange(s, s + h.len()) == h
            &&& k + 1 < hi - lo ==> s + h.len() < g.len()
            &&& k + 1 < hi - lo ==> g[s + h.len()] == 58
            &&& k + 1 < hi - lo ==> group_start(b, lo, k + 1) == s + h.len() + 1
            &&& k + 1 == hi - lo ==> s + h.len() == g.len()
        }),
{
    let g = groups_text(b, lo, hi);
    let h = hex_digits(group(b, lo + k));
    let g1 = groups_text(b, lo, lo + k + 1);
    lemma_groups_prefix(b, lo, lo + k + 1, hi);
    if k == 0 {
        assert(g1 == h);
    } else {
        assert(g1 == groups_text(b, lo, lo + k) + seq![58u8] + h);
    }
    assert(g1.subrange(group_start(b, lo, k), g1.len() as int) =~= h);
    assert(g.subrange(group_start(b, lo, k), group_start(b, lo, k) + h.len()) =~= g1.subrange(group_start(b, lo, k), g1.len() as int));
    if k + 1 < hi - lo {
        lemma_groups_prefix(b, lo, lo + k + 1, hi);
    }
}

proof fn lemma_longest_run(b: Seq<u8>, i: int)
    requires
        0 <= i <= 8,
    ensures
        longest_zero_run(b, i).1 > 0 ==> i <= longest_zero_run(b, i).0 < 8 && longest_zero_run(b, i).1
            == zero_run(b, longest_zero_run(b, i).0),
    decreases 8 - i,
{
    if i < 8 {
        lemma_longest_run(b, i + 1);
    }
}

proof fn lemma_zero_run_zeros(b: Seq<u8>, s: int)
    requires
        0 <= s <= 8,
    ensures
        forall|j: int| s <= j < s + zero_run(b, s) ==> group(b, j) == 0,
        s + zero_run(b, s) <= 8,
    decreases 8 - s,
{
    lemma_zero_run_bound(b, s);
    if s < 8 && group(b, s) == 0 {
        lemma_zero_run_zeros(b, s + 1);
    }
}

/// The groups `head`, then zeros, then `tail`: eight in all.
fn join_groups(head: &Vec<u16>, tail: &Vec<u16>) -> (r: Vec<u16>)
    requires
        head@.len() + tail@.len() <= 8,
    ensures
        r@ == head@ + Seq::new((8 - head@.len() - tail@.len()) as nat, |i: int| 0u16) + tail@,
{
    let mut r: Vec<u16> = Vec::new();
    let mut i: usize = 0;
    while i < head.len()
        invariant
            i <= head@.len(),
            r@ == head@.take(i as int),
        decreases head@.len() - i,
    {
        r.push(head[i]);
        i = i + 1;
        assert(r@ =~= head@.take(i as int));
    }
    let zeros = 8 - head.len() - tail.len();
    let mut z: usize = 0;
    while z < zeros
        invariant
            z <= zeros,
            zeros == 8 - head@.len() - tail@.len(),
            r@ == head@ + Seq::new(z as nat, |i: int| 0u16),
        decreases zeros - z,
    {
        r.push(0);
        z = z + 1;
        assert(r@ =~= head@ + Seq::new(z as nat, |i: int| 0u16));
    }
    let ghost mid = r@;
    let mut i: usize = 0;
    while i < tail.len()
        invariant
            i <= tail@.len(),
            r@ == mid + tail@.take(i as int),
        decreases tail@.len() - i,
    {
        r.push(tail[i]);
        i = i + 1;
        assert(r@ =~= mid + tail@.take(i as int));
    }
    assert(tail@.take(i as int) =~= tail@);
    r
}

/// The sixteen bytes of eight 16-bit groups, each big-endian.
pub open spec fn group_bytes(g: Seq<u16>) -> Seq<u8> {
    Seq::new(16, |i: int| if i % 2 == 0 { (g[i / 2] / 256) as u8 } else { (g[i / 2] % 256) as u8 })
}

fn bytes_of_groups(groups: &Vec<u16>) -> (r: Vec<u8>)
    requires
        groups@.len() == 8,
    ensures
        r@ == group_bytes(groups@),
{
    let mut out: Vec<u8> = Vec::new();
    let mut i: usize = 0;
    while i < 8
        invariant
            i <= 8,
            groups@.len() == 8,
            out@ == group_bytes(groups@).take(2 * i),
        decreases 8 - i,
    {
        out.push((groups[i] / 256) as u8);
        out.push((groups[i] % 256) as u8);
        i = i + 1;
        assert(out@ =~= group_bytes(groups@).take(2 * i));
    }
    assert(out@ =~= group_bytes(groups@));
    out
}

/// How many digits follow one another in `t` from `pos` on.
pub open spec fn run_len(t: Seq<u8>, pos: int, hex: bool) -> nat
    decreases t.len() - pos,
{
    if 0 <= pos < t.len() && is_digit(t[pos], hex) {
        1 + run_len(t, pos + 1, hex)
    } else {
        0
    }
}

/// A hexadecimal group as the IP parser of Rust's standard library reads
/// it at `pos`: one to four digits of either case, leading zeros allowed;
/// its value and where it ends.
pub open spec fn std_group(t: Seq<u8>, pos: int) -> Option<(u16, int)> {
    let n = run_len(t, pos, true) as int;
    if 1 <= n <= 4 {
        Some((run_value(t.subrange(pos, pos + n), 16) as u16, pos + n))
    } else {
        None
    }
}

/// A decimal octet as that parser reads it: one to three digits, no
/// leading zero before another digit, a value below 256.
pub open spec fn std_octet(t: Seq<u8>, pos: int) -> Option<(u8, int)> {
    let n = run_len(t, pos, false) as int;
    if n < 1 || n > 3 || (n > 1 && t[pos] == 48) || run_value(t.subrange(pos, pos + n), 10) > 255 {
        None
    } else {
        Some((run_value(t.subrange(pos, pos + n), 10) as u8, pos + n))
    }
}

/// `t` holds the byte `c` at `pos`.
pub open spec fn char_at(t: Seq<u8>, pos: int, c: u8) -> bool {
    0 <= pos < t.len() && t[pos] == c
}

/// A dotted-quad address read at `pos`: four octets joined by dots.
#[verifier::opaque]
pub open spec fn std_ipv4(t: Seq<u8>, pos: int) -> Option<(Seq<u8>, int)> {
    match std_octet(t, pos) {
        None => None,
        Some((a, p1)) => if !char_at(t, p1, 46) {
            None
        } else {
            match std_octet(t, p1 + 1) {
                None => None,
                Some((b, p2)) => if !char_at(t, p2, 46) {
                    None
                } else {
                    match std_octet(t, p2 + 1) {
                        None => None,
                        Some((c, p3)) => if !char_at(t, p3, 46) {
                            None
                        } else {
                            match std_octet(t, p3 + 1) {
                                None => None,
                                Some((d, p4)) => Some((seq![a, b, c, d], p4)),
                            }
                        },
                    }
                },
            }
        },
    }
}

/// Groups read from `pos` on as that parser does, for slots `i..limit`: each
/// after a colon but the first, a dotted quad standing for the last two
/// slots; the groups, where reading stopped, and whether a dotted quad ended it.
pub open spec fn std_groups(t: Seq<u8>, pos: int, i: int, limit: int) -> (Seq<u16>, int, bool)
    decreases limit - i,
{
    if i >= limit {
        (Seq::empty(), pos, false)
    } else {
        let q = if i > 0 { pos + 1 } else { pos };
        if i > 0 && !char_at(t, pos, 58) {
            (Seq::empty(), pos, false)
        } else if i < limit - 1 && std_ipv4(t, q) is Some {
            let v = std_ipv4(t, q).unwrap();
            (seq![((v.0[0] as int) * 256 + v.0[1] as int) as u16, ((v.0[2] as int) * 256 + v.0[3] as int) as u16], v.1, true)
        } else {
            match std_group(t, q) {
                None => (Seq::empty(), pos, false),
                Some((g, e)) => {
                    let rest = std_groups(t, e, i + 1, limit);
                    (seq![g] + rest.0, rest.1, rest.2)
                },
            }
        }
    }
}

/// The sixteen bytes of an IPv6 address as that parser reads the whole of
/// `t`: eight groups, or groups, `::` standing for one or more zero groups,
/// and groups, a dotted quad allowed only at the very end.
pub open spec fn std_ipv6(t: Seq<u8>) -> Option<Seq<u8>> {
    let head = std_groups(t, 0, 0, 8);
    if head.0.len() == 8 {
        if head.1 == t.len() {
            Some(group_bytes(head.0))
        } else {
            None
        }
    } else if head.2 || !char_at(t, head.1, 58) || !char_at(t, head.1 + 1, 58) {
        None
    } else {
        let tail = std_groups(t, head.1 + 2, 0, 7 - head.0.len());
        if tail.1 != t.len() {
            None
        } else {
            Some(group_bytes(head.0 + Seq::new((8 - head.0.len() - tail.0.len()) as nat, |i: int| 0u16) + tail.0))
        }
    }
}

/// The address that `t` is the text of, as Rust's standard library parses
/// an IP address: four bytes for a dotted quad, sixteen for IPv6, none for
/// any other text.
#[verifier::opaque]
pub open spec fn std_ip(t: Seq<u8>) -> Option<Seq<u8>> {
    match std_ipv4(t, 0) {
        Some((b, e)) => if e == t.len() {
            Some(b)
        } else {
            None
        },
        None => std_ipv6(t),
    }
}

fn run_length(t: &[u8], pos: usize, hex: bool) -> (r: usize)
    requires
        pos <= t@.len(),
    ensures
        r as nat == run_len(t@, pos as int, hex),
        pos + r <= t@.len(),
        forall|i: int| pos <= i < pos + r ==> is_digit(#[trigger] t@[i], hex),
{
    let mut j: usize = pos;
    while j < t.len() && (48 <= t[j] && t[j] <= 57 || hex && (97 <= t[j] && t[j] <= 102 || 65 <= t[j] && t[j] <= 70))
        invariant
            pos <= j <= t@.len(),
            run_len(t@, pos as int, hex) == (j - pos) + run_len(t@, j as int, hex),
            forall|i: int| pos <= i < j ==> is_digit(#[trigger] t@[i], hex),
        decreases t@.len() - j,
    {
        j = j + 1;
    }
    j - pos
}

fn run_val(t: &[u8], pos: usize, n: usize, hex: bool) -> (r: u32)
    requires
        pos + n <= t@.len(),
        n <= 4,
        forall|i: int| pos <= i < pos + n ==> is_digit(#[trigger] t@[i], hex),
    ensures
        r as nat == run_value(t@.subrange(pos as int, pos + n), if hex { 16 } else { 10 }),
        r < 65536,
{
    let tl = t.len();
    let ghost base_n: nat = if hex { 16 } else { 10 };
    let base: u32 = if hex { 16 } else { 10 };
    let mut acc: u32 = 0;
    let mut j: usize = pos;
    assert(t@.subrange(pos as int, pos as int) =~= Seq::<u8>::empty());
    while j < pos + n
        invariant
            pos <= j <= pos + n,
            pos + n <= t@.len(),
            n <= 4,
            base as nat == base_n,
            base <= 16,
            base_n == (if hex { 16nat } else { 10nat }),
            forall|i: int| pos <= i < pos + n ==> is_digit(#[trigger] t@[i], hex),
            acc as nat == run_value(t@.subrange(pos as int, j as int), base_n),
            tl == t@.len(),
            j == pos ==> acc == 0,
            j == pos + 1 ==> acc < 16,
            j == pos + 2 ==> acc < 256,
            j == pos + 3 ==> acc < 4096,
            acc < 65536,
        decreases pos + n - j,
    {
        let c = t[j];
        assert(is_digit(c, hex));
        let d: u32 = if c <= 57 { (c - 48) as u32 } else if c >= 97 { (c - 87) as u32 } else { (c - 55) as u32 };
        assert(acc * base <= acc * 16) by (nonlinear_arith)
            requires
                base <= 16,
        ;
        assert(t@.subrange(pos as int, j + 1).drop_last() =~= t@.subrange(pos as int, j as int));
        acc = acc * base + d;
        j = j + 1;
    }
    acc
}

fn read_group(t: &[u8], pos: usize) -> (r: Option<(u16, usize)>)
    requires
        pos <= t@.len(),
    ensures
        match r {
            Some((g, e)) => std_group(t@, pos as int) == Some((g, e as int)),
            None => std_group(t@, pos as int) is None,
        },
        r matches Some((g, e)) ==> e <= t@.len(),
{
    let tl = t.len();
    let n = run_length(t, pos, true);
    if n < 1 || n > 4 {
        return None;
    }
    let v = run_val(t, pos, n, true);
    Some((v as u16, pos + n))
}

fn read_octet(t: &[u8], pos: usize) -> (r: Option<(u8, usize)>)
    requires
        pos <= t@.len(),
    ensures
        match r {
            Some((o, e)) => std_octet(t@, pos as int) == Some((o, e as int)),
            None => std_octet(t@, pos as int) is None,
        },
        r matches Some((o, e)) ==> e <= t@.len(),
{
    let tl = t.len();
    let n = run_length(t, pos, false);
    if n < 1 || n > 3 || (n > 1 && t[pos] == 48) {
        return None;
    }
    let v = run_val(t, pos, n, false);
    if v > 255 {
        return None;
    }
    Some((v as u8, pos + n))
}

fn has_char(t: &[u8], pos: usize, c: u8) -> (r: bool)
    ensures
        r == char_at(t@, pos as int, c),
{
    pos < t.len() && t[pos] == c
}

fn read_ipv4(t: &[u8], pos: usize) -> (r: Option<(Vec<u8>, usize)>)
    requires
        pos <= t@.len(),
    ensures
        match r {
            Some((v, e)) => std_ipv4(t@, pos as int) == Some((v@, e as int)),
            None => std_ipv4(t@, pos as int) is None,
        },
        r matches Some((v, e)) ==> e <= t@.len() && v@.len() == 4,
{
    let tl = t.len();
    proof {
        reveal(std_ipv4);
    }
    let (a, p1) = match read_octet(t, pos) { Some(x) => x, None => { return None; } };
    if !has_char(t, p1, 46) { return None; }
    let (b, p2) = match read_octet(t, p1 + 1) { Some(x) => x, None => { return None; } };
    if !has_char(t, p2, 46) { return None; }
    let (c, p3) = match read_octet(t, p2 + 1) { Some(x) => x, None => { return None; } };
    if !has_char(t, p3, 46) { return None; }
    let (d, p4) = match read_octet(t, p3 + 1) { Some(x) => x, None => { return None; } };
    let v: Vec<u8> = vec![a, b, c, d];
    assert(v@ =~= seq![a, b, c, d]);
    Some((v, p4))
}

fn read_groups(t: &[u8], pos: usize, i: usize, limit: usize) -> (r: (Vec<u16>, usize, bool))
    requires
        pos <= t@.len(),
        i <= limit <= 8,
    ensures
        (r.0@, r.1 as int, r.2) == std_groups(t@, pos as int, i as int, limit as int),
        r.1 <= t@.len(),
        r.0@.len() <= limit - i,
    decreases limit - i,
{
    if i >= limit {
        return (Vec::new(), pos, false);
    }
    let tl = t.len();
    if i > 0 && !has_char(t, pos, 58) {
        return (Vec::new(), pos, false);
    }
    let q = if i > 0 { pos + 1 } else { pos };
    if i + 1 < limit {
        if let Some((v, e)) = read_ipv4(t, q) {
            let g0: u16 = (v[0] as u16) * 256 + v[1] as u16;
            let g1: u16 = (v[2] as u16) * 256 + v[3] as u16;
            let r: Vec<u16> = vec![g0, g1];
            assert(r@ =~= seq![((v@[0] as int) * 256 + v@[1] as int) as u16, ((v@[2] as int) * 256 + v@[3] as int) as u16]);
            return (r, e, true);
        }
    }
    match read_group(t, q) {
        None => (Vec::new(), pos, false),
        Some((g, e)) => {
            let (rest, p, v4) = read_groups(t, e, i + 1, limit);
            let mut r: Vec<u16> = vec![g];
            let mut k: usize = 0;
            while k < rest.len()
                invariant
                    k <= rest@.len(),
                    r@ == seq![g] + rest@.take(k as int),
                decreases rest@.len() - k,
            {
                r.push(rest[k]);
                k = k + 1;
                assert(r@ =~= seq![g] + rest@.take(k as int));
            }
            assert(rest@.take(k as int) =~= rest@);
            (r, p, v4)
        },
    }
}

/// The sixteen bytes of an IPv6 text, read as Rust's standard library reads one.
pub fn parse_ipv6_std(t: &[u8]) -> (r: Option<Vec<u8>>)
    ensures
        match r {
            Some(v) => std_ipv6(t@) == Some(v@),
            None => std_ipv6(t@) is None,
        },
{
    let tl = t.len();
    let (head, p, v4) = read_groups(t, 0, 0, 8);
    if head.len() == 8 {
        if p == t.len() {
            return Some(bytes_of_groups(&head));
        }
        return None;
    }
    if v4 || !has_char(t, p, 58) || !has_char(t, p + 1, 58) {
        return None;
    }
    let (tail, q, _) = read_groups(t, p + 2, 0, 7 - head.len());
    if q != t.len() {
        return None;
    }
    let groups = join_groups(&head, &tail);
    Some(bytes_of_groups(&groups))
}

/// The bytes of an IP text, read as Rust's standard library reads one.
pub fn parse_ip_std(t: &[u8]) -> (r: Option<Vec<u8>>)
    ensures
        match r {
            Some(v) => std_ip(t@) == Some(v@),
            None => std_ip(t@) is None,
        },
        r matches Some(v) ==> v@.len() == 4 || v@.len() == 16,
{
    proof {
        reveal(std_ip);
    }
    match read_ipv4(t, 0) {
        Some((b, e)) => if e == t.len() {
            Some(b)
        } else {
            None
        },
        None => parse_ipv6_std(t),
    }
}

proof fn lemma_run_len_field(t: Seq<u8>, pos: int, d: Seq<u8>, hex: bool)
    requires
        0 <= pos,
        pos + d.len() <= t.len(),
        t.subrange(pos, pos + d.len()) == d,
        forall|i: int| 0 <= i < d.len() ==> is_digit(#[trigger] d[i], hex),
        pos + d.len() == t.len() || !is_digit(t[pos + d.len()], hex),
    ensures
        run_len(t, pos, hex) == d.len(),
    decreases d.len(),
{
    if d.len() > 0 {
        assert(t[pos] == d[0]);
        let d1 = d.drop_first();
        assert(t.subrange(pos + 1, pos + 1 + d1.len()) =~= d1);
        lemma_run_len_field(t, pos + 1, d1, hex);
    } else {
        if pos < t.len() {
            assert(!is_digit(t[pos], hex));
        }
    }
}

proof fn lemma_dec_first(n: nat)
    requires
        n > 0,
    ensures
        dec_digits(n)[0] != 48,
    decreases n,
{
    if n >= 10 {
        lemma_dec_first(n / 10);
        lemma_dec_digits(n / 10);
        assert(dec_digits(n)[0] == dec_digits(n / 10)[0]);
    }
}

proof fn lemma_octet_text(t: Seq<u8>, pos: int, n: nat)
    requires
        n < 256,
        0 <= pos,
        pos + dec_digits(n).len() <= t.len(),
        t.subrange(pos, pos + dec_digits(n).len()) == dec_digits(n),
        pos + dec_digits(n).len() == t.len() || !is_digit(t[pos + dec_digits(n).len()], false),
    ensures
        std_octet(t, pos) == Some::<(u8, int)>((n as u8, pos + dec_digits(n).len())),
{
    let d = dec_digits(n);
    lemma_dec_digits(n);
    lemma_run_len_field(t, pos, d, false);
    if d.len() > 1 {
        lemma_dec_first(n);
        assert(t[pos] == d[0]);
    }
}

proof fn lemma_std_ipv4_at(t: Seq<u8>, pos: int, b: Seq<u8>)
    requires
        b.len() == 4,
        0 <= pos,
        pos + ipv4_text(b).len() == t.len(),
        t.subrange(pos, t.len() as int) == ipv4_text(b),
    ensures
        std_ipv4(t, pos) == Some((b, t.len() as int)),
{
    reveal(std_ipv4);
    let u = ipv4_text(b);
    lemma_ipv4_layout(b);
    let e0 = ipv4_field_end(b, 0);
    let e1 = ipv4_field_end(b, 1);
    let e2 = ipv4_field_end(b, 2);
    let e3 = ipv4_field_end(b, 3);
    assert(ipv4_field_start(b, 1) == e0 + 1);
    assert(ipv4_field_start(b, 2) == e1 + 1);
    assert(ipv4_field_start(b, 3) == e2 + 1);
    assert forall|k: int| 0 <= k < 4 implies t.subrange(pos + ipv4_field_start(b, k), pos + #[trigger] ipv4_field_end(b, k)) == dec_digits(b[k] as nat) by {
        assert(t.subrange(pos + ipv4_field_start(b, k), pos + ipv4_field_end(b, k)) =~= u.subrange(ipv4_field_start(b, k), ipv4_field_end(b, k)));
    }
    assert(t[pos + e0] == u[e0]);
    assert(t[pos + e1] == u[e1]);
    assert(t[pos + e2] == u[e2]);
    lemma_octet_text(t, pos, b[0] as nat);
    lemma_octet_text(t, pos + e0 + 1, b[1] as nat);
    lemma_octet_text(t, pos + e1 + 1, b[2] as nat);
    lemma_octet_text(t, pos + e2 + 1, b[3] as nat);
    assert(seq![b[0], b[1], b[2], b[3]] =~= b);
}

proof fn lemma_std_ipv4_text(b: Seq<u8>)
    requires
        b.len() == 4,
    ensures
        std_ip(ipv4_text(b)) == Some(b),
{
    reveal(std_ip);
    let t = ipv4_text(b);
    assert(t.subrange(0, t.len() as int) =~= t);
    lemma_std_ipv4_at(t, 0, b);
}

proof fn lemma_groups_chars(b: Seq<u8>, lo: int, hi: int)
    ensures
        forall|i: int| 0 <= i < groups_text(b, lo, hi).len() ==> (#[trigger] groups_text(b, lo, hi)[i] == 58
            || is_digit(groups_text(b, lo, hi)[i], true)),
    decreases hi - lo,
{
    if hi > lo {
        lemma_hex_digits(group(b, hi - 1));
        if hi > lo + 1 {
            lemma_groups_chars(b, lo, hi - 1);
            let g1 = groups_text(b, lo, hi - 1);
            let h = hex_digits(group(b, hi - 1));
            assert(groups_text(b, lo, hi) == g1 + seq![58u8] + h);
            assert forall|i: int| 0 <= i < groups_text(b, lo, hi).len() implies (#[trigger] groups_text(b, lo, hi)[i] == 58
                || is_digit(groups_text(b, lo, hi)[i], true)) by {
                if i < g1.len() {
                    assert(groups_text(b, lo, hi)[i] == g1[i]);
                } else if i > g1.len() {
                    assert(groups_text(b, lo, hi)[i] == h[i - g1.len() - 1]);
                }
            }
        }
    }
}

proof fn lemma_no_dot_no_ipv4(t: Seq<u8>, pos: int)
    requires
        forall|i: int| 0 <= i < t.len() ==> #[trigger] t[i] != 46,
    ensures
        std_ipv4(t, pos) is None,
{
    reveal(std_ipv4);
}

/// Where reading the groups of a text stands before group `k`.
pub open spec fn text_pos(b: Seq<u8>, lo: int, o: int, k: int) -> int {
    if k == 0 {
        o
    } else {
        o + group_start(b, lo, k) - 1
    }
}

#[verifier::rlimit(100)]
proof fn lemma_std_groups_text(t: Seq<u8>, b: Seq<u8>, lo: int, hi: int, o: int, k: int, limit: int)
    requires
        0 <= lo <= hi <= 8,
        0 <= k <= hi - lo,
        hi - lo <= limit <= 8,
        0 <= o,
        o + groups_text(b, lo, hi).len() <= t.len(),
        t.subrange(o, o + groups_text(b, lo, hi).len()) == groups_text(b, lo, hi),
        forall|i: int| 0 <= i < t.len() ==> #[trigger] t[i] != 46,
        o + groups_text(b, lo, hi).len() == t.len() || (t[o + groups_text(b, lo, hi).len()] == 58 && o
            + groups_text(b, lo, hi).len() + 1 < t.len() && t[o + groups_text(b, lo, hi).len() + 1] == 58),
    ensures
        std_groups(t, text_pos(b, lo, o, k), k, limit) == (group_seq(b, lo + k, hi), o + groups_text(b, lo, hi).len(), false),
    decreases hi - lo - k,
{
    let g = groups_text(b, lo, hi);
    let e = o + g.len();
    let pos = text_pos(b, lo, o, k);
    let q = if k > 0 { pos + 1 } else { pos };
    lemma_no_dot_no_ipv4(t, q);
    if k == hi - lo {
        assert(group_seq(b, lo + k, hi) =~= Seq::<u16>::empty());
        if hi > lo {
            lemma_groups_prefix(b, lo, hi, hi);
            assert(pos == e);
        } else {
            assert(g.len() == 0);
        }
        if k < limit {
            if k > 0 {
                if char_at(t, pos, 58) {
                    assert(t[q] == 58);
                    assert(run_len(t, q, true) == 0);
                }
            } else {
                if q < t.len() {
                    assert(t[q] == 58);
                }
                assert(run_len(t, q, true) == 0);
            }
        }
    } else {
        lemma_group_at(b, lo, hi, k);
        let h = hex_digits(group(b, lo + k));
        lemma_hex_digits(group(b, lo + k));
        let s = group_start(b, lo, k);
        assert(q == o + s) by {
            if k > 0 {
            } else {
                assert(group_start(b, lo, 0) == 0);
            }
        }
        if k > 0 {
            lemma_group_at(b, lo, hi, k - 1);
            let hp = hex_digits(group(b, lo + k - 1));
            assert(g[group_start(b, lo, k - 1) + hp.len()] == 58);
            assert(t[pos] == g[pos - o]);
        }
        assert(t.subrange(q, q + h.len()) =~= h) by {
            assert forall|i: int| 0 <= i < h.len() implies t.subrange(q, q + h.len())[i] == h[i] by {
                assert(t[q + i] == g[s + i]);
                assert(g.subrange(s, s + h.len())[i] == g[s + i]);
            }
        }
        if k + 1 < hi - lo {
            assert(t[q + h.len()] == g[s + h.len()]);
        } else {
            assert(q + h.len() == e);
        }
        lemma_run_len_field(t, q, h, true);
        assert(t.subrange(q, q + h.len()) == h);
        lemma_std_groups_text(t, b, lo, hi, o, k + 1, limit);
        assert(text_pos(b, lo, o, k + 1) == q + h.len()) by {
            if k + 1 < hi - lo {
            } else {
                lemma_groups_prefix(b, lo, hi, hi);
            }
        }
        assert(seq![group(b, lo + k) as u16] + group_seq(b, lo + k + 1, hi) =~= group_seq(b, lo + k, hi));
    }
}

proof fn lemma_group_bytes(b: Seq<u8>)
    requires
        b.len() == 16,
    ensures
        group_bytes(group_seq(b, 0, 8)) == b,
{
    assert forall|i: int| 0 <= i < 16 implies #[trigger] group_bytes(group_seq(b, 0, 8))[i] == b[i] by {
        let j = i / 2;
        let gv = group(b, j);
        assert(gv == (b[2 * j] as nat) * 256 + (b[2 * j + 1] as nat));
        assert(gv / 256 == b[2 * j] as nat);
        assert(gv % 256 == b[2 * j + 1] as nat);
    }
    assert(group_bytes(group_seq(b, 0, 8)) =~= b);
}

#[verifier::rlimit(100)]
proof fn lemma_std_ipv6_hex(b: Seq<u8>)
    requires
        b.len() == 16,
    ensures
        std_ip(ipv6_hex_text(b)) == Some(b),
{
    reveal(std_ip);
    let t = ipv6_hex_text(b);
    let run = longest_zero_run(b, 0);
    lemma_longest_run(b, 0);
    lemma_group_bytes(b);
    if run.1 >= 2 {
        lemma_zero_run_zeros(b, run.0);
        let hd = groups_text(b, 0, run.0);
        let tl = groups_text(b, run.0 + run.1, 8);
        lemma_groups_chars(b, 0, run.0);
        lemma_groups_chars(b, run.0 + run.1, 8);
        assert(t == hd + seq![58u8, 58u8] + tl);
        assert forall|i: int| 0 <= i < t.len() implies #[trigger] t[i] != 46 by {
            if i < hd.len() {
                assert(t[i] == hd[i]);
            } else if i >= hd.len() + 2 {
                assert(t[i] == tl[i - hd.len() - 2]);
            }
        }
        lemma_no_dot_no_ipv4(t, 0);
        assert(t.subrange(0, hd.len() as int) =~= hd);
        assert(t.subrange(hd.len() + 2int, hd.len() + 2int + tl.len()) =~= tl);
        lemma_std_groups_text(t, b, 0, run.0, 0, 0, 8);
        lemma_std_groups_text(t, b, run.0 + run.1, 8, hd.len() + 2int, 0, 7 - run.0);
        assert(group_seq(b, 0, run.0) + Seq::new((8 - run.0 - (8 - run.0 - run.1)) as nat, |i: int| 0u16) + group_seq(b, run.0 + run.1, 8) =~= group_seq(b, 0, 8));
    } else {
        let g = groups_text(b, 0, 8);
        lemma_groups_chars(b, 0, 8);
        assert forall|i: int| 0 <= i < t.len() implies #[trigger] t[i] != 46 by {
            assert(t[i] == g[i]);
        }
        lemma_no_dot_no_ipv4(t, 0);
        assert(t.subrange(0, g.len() as int) =~= g);
        lemma_std_groups_text(t, b, 0, 8, 0, 0, 8);
    }
}

proof fn lemma_ipv4_needs_digit(t: Seq<u8>, pos: int)
    requires
        !(0 <= pos < t.len() && is_digit(t[pos], false)),
    ensures
        std_ipv4(t, pos) is None,
{
    reveal(std_ipv4);
    assert(run_len(t, pos, false) == 0);
}

proof fn lemma_ffff()
    ensures
        run_value(seq![102u8, 102, 102, 102], 16) == 65535,
{
    let f = seq![102u8, 102, 102, 102];
    assert(f.drop_last() =~= seq![102u8, 102, 102]);
    assert(f.drop_last().drop_last() =~= seq![102u8, 102]);
    assert(f.drop_last().drop_last().drop_last() =~= seq![102u8]);
    assert(seq![102u8].drop_last() =~= Seq::<u8>::empty());
    assert(run_value(Seq::<u8>::empty(), 16) == 0);
    assert(run_value(seq![102u8], 16) == 15);
    assert(run_value(seq![102u8, 102], 16) == 255);
    assert(run_value(seq![102u8, 102, 102], 16) == 4095);
}

/// The groups that the parser reads after the `::` of a mapped address.
proof fn lemma_mapped_tail(t: Seq<u8>, q: Seq<u8>)
    requires
        q.len() == 4,
        t == seq![58u8, 58, 102, 102, 102, 102, 58] + ipv4_text(q),
    ensures
        std_groups(t, 2, 0, 7) == (seq![65535u16, ((q[0] as int) * 256 + q[1] as int) as u16, ((q[2] as int) * 256 + q[3] as int) as u16], t.len() as int, true),
{
    let u = ipv4_text(q);
    assert(t.subrange(7, t.len() as int) =~= u);
    lemma_std_ipv4_at(t, 7, q);
    lemma_ipv4_needs_digit(t, 2);
    assert(t.subrange(2, 6) =~= seq![102u8, 102, 102, 102]);
    lemma_run_len_field(t, 2, seq![102u8, 102, 102, 102], true);
    lemma_ffff();
    assert(std_group(t, 2) == Some((65535u16, 6int)));
    let v = std_ipv4(t, 7).unwrap();
    assert(std_groups(t, 6, 1, 7) == (seq![((v.0[0] as int) * 256 + v.0[1] as int) as u16, ((v.0[2] as int) * 256 + v.0[3] as int) as u16], v.1, true));
    assert(std_groups(t, 2, 0, 7).0 =~= seq![65535u16] + std_groups(t, 6, 1, 7).0);
}

proof fn lemma_std_ipv6_mapped(b: Seq<u8>)
    requires
        b.len() == 16,
        is_ipv4_mapped(b),
    ensures
        std_ip(ipv6_text(b)) == Some(b),
{
    reveal(std_ip);
    let t = ipv6_text(b);
    let q = b.subrange(12, 16);
    assert(t == seq![58u8, 58, 102, 102, 102, 102, 58] + ipv4_text(q));
    lemma_ipv4_needs_digit(t, 0);
    assert(run_len(t, 0, true) == 0);
    assert(std_groups(t, 0, 0, 8) == (Seq::<u16>::empty(), 0int, false));
    lemma_mapped_tail(t, q);
    let tail = std_groups(t, 2, 0, 7);
    let groups = Seq::<u16>::empty() + Seq::new(5, |i: int| 0u16) + tail.0;
    assert(std_ipv6(t) == Some(group_bytes(groups)));
    assert forall|i: int| 0 <= i < 16 implies #[trigger] group_bytes(groups)[i] == b[i] by {
        if i >= 12 {
            assert(b[i] == q[i - 12]);
        }
    }
    assert(group_bytes(groups) =~= b);
}

/// The standard library's parser reads the text of an address back as that
/// address.
pub proof fn lemma_std_reads_ip_text(b: Seq<u8>)
    requires
        b.len() == 4 || b.len() == 16,
    ensures
        b.len() == 4 ==> std_ip(ipv4_text(b)) == Some(b),
        b.len() == 16 ==> std_ip(ipv6_text(b)) == Some(b),
{
    if b.len() == 4 {
        lemma_std_ipv4_text(b);
    } else if is_ipv4_mapped(b) {
        lemma_std_ipv6_mapped(b);
    } else {
        lemma_std_ipv6_hex(b);
    }
}

} // verus!
