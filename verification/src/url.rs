//! The base URL of the service, as bytes.
//!
//! A client reaches the service under `http://` followed by the host in
//! dotted decimal, a colon and the port in decimal, each number without
//! leading zeros: the address `127.0.0.1` with port 5393 is
//! `http://127.0.0.1:5393`.

use vstd::prelude::*;
use crate::address::Address;

verus! {

/// Whether a byte is an ASCII digit.
pub open spec fn is_digit(b: u8) -> bool {
    48 <= b <= 57
}

/// The ASCII digit for a number below ten.
pub open spec fn digit(d: nat) -> u8 {
    (48 + d) as u8
}

/// A number in decimal, without leading zeros.
pub open spec fn decimal(n: nat) -> Seq<u8>
    decreases n,
{
    if n < 10 {
        seq![digit(n)]
    } else {
        decimal(n / 10).push(digit(n % 10))
    }
}

/// The bytes of `http://`.
pub open spec fn scheme() -> Seq<u8> {
    seq![104u8, 116u8, 116u8, 112u8, 58u8, 47u8, 47u8]
}

/// The host and the port: four numbers with dots between them, a colon and
/// a fifth.
pub open spec fn host_port(addr: Address) -> Seq<u8> {
    decimal(addr.a as nat) + (seq![46u8] + (decimal(addr.b as nat) + (seq![46u8] + (decimal(
        addr.c as nat,
    ) + (seq![46u8] + (decimal(addr.d as nat) + (seq![58u8] + decimal(addr.port as nat))))))))
}

/// The base URL of the service at `addr`.
pub open spec fn url_of(addr: Address) -> Seq<u8> {
    scheme() + host_port(addr)
}

/// Appends `n` in decimal.
fn push_decimal(out: &mut Vec<u8>, n: u16)
    ensures
        final(out)@ == old(out)@ + decimal(n as nat),
    decreases n,
{
    if n >= 10 {
        push_decimal(out, n / 10);
    }
    let last: u8 = (n % 10) as u8;
    out.push(48 + last);
    proof {
        let before = old(out)@;
        if n >= 10 {
            assert(out@ =~= before + decimal((n / 10) as nat).push(digit((n % 10) as nat)));
        } else {
            assert(out@ =~= before + seq![digit(n as nat)]);
        }
    }
}

/// The base URL of the service at `addr`.
pub fn base_url(addr: Address) -> (url: Vec<u8>)
    ensures
        url@ == url_of(addr),
{
    let mut url: Vec<u8> = Vec::new();
    url.push(104);
    url.push(116);
    url.push(116);
    url.push(112);
    url.push(58);
    url.push(47);
    url.push(47);
    assert(url@ =~= scheme());
    push_decimal(&mut url, addr.a as u16);
    url.push(46);
    push_decimal(&mut url, addr.b as u16);
    url.push(46);
    push_decimal(&mut url, addr.c as u16);
    url.push(46);
    push_decimal(&mut url, addr.d as u16);
    url.push(58);
    push_decimal(&mut url, addr.port);
    assert(url@ =~= url_of(addr));
    url
}

/// The number that a run of digits stands for.
pub open spec fn value_of(digits: Seq<u8>) -> nat
    decreases digits.len(),
{
    if digits.len() == 0 {
        0
    } else {
        value_of(digits.drop_last()) * 10 + (digits.last() - 48) as nat
    }
}

/// Ten to the power of `k`, for the few `k` that a port can have digits.
spec fn ten_to(k: int) -> nat {
    if k <= 0 {
        1
    } else if k == 1 {
        10
    } else if k == 2 {
        100
    } else if k == 3 {
        1000
    } else if k == 4 {
        10000
    } else {
        100000
    }
}

/// What `read_number` found from `start` on: a run of at most five digits
/// that ends at `end`, where a byte follows that is no digit unless five
/// were read or the bytes are at their end; and the number they stand for.
spec fn reads(bytes: Seq<u8>, start: int, value: nat, end: int) -> bool {
    &&& 0 <= start <= end <= bytes.len()
    &&& end - start <= 5
    &&& forall|i: int| start <= i < end ==> is_digit(#[trigger] bytes[i])
    &&& end - start < 5 ==> end == bytes.len() || !is_digit(bytes[end])
    &&& value == value_of(bytes.subrange(start, end))
}

/// Reads the digits that begin at `start`, five at most.
fn read_number(bytes: &[u8], start: usize) -> (found: (u32, usize))
    requires
        start <= bytes@.len(),
    ensures
        reads(bytes@, start as int, found.0 as nat, found.1 as int),
{
    let mut value: u32 = 0;
    let mut end: usize = start;
    assert(bytes@.subrange(start as int, end as int) =~= Seq::<u8>::empty());
    while end < bytes.len() && end - start < 5 && 48 <= bytes[end] && bytes[end] <= 57
        invariant
            start <= end <= bytes@.len(),
            end - start <= 5,
            forall|i: int| start <= i < end ==> is_digit(#[trigger] bytes@[i]),
            value == value_of(bytes@.subrange(start as int, end as int)),
            value < ten_to(end - start),
        decreases bytes@.len() - end,
    {
        let d: u32 = (bytes[end] - 48) as u32;
        proof {
            let longer = bytes@.subrange(start as int, end + 1);
            assert(longer.drop_last() =~= bytes@.subrange(start as int, end as int));
            assert(longer.last() == bytes@[end as int]);
        }
        value = value * 10 + d;
        end = end + 1;
    }
    (value, end)
}

/// What holds of a number in decimal: it has at least one byte, all its
/// bytes are digits, it stands for the number, and it is short if the
/// number is small.
proof fn lemma_decimal(n: nat)
    ensures
        decimal(n).len() >= 1,
        forall|i: int| 0 <= i < decimal(n).len() ==> is_digit(#[trigger] decimal(n)[i]),
        value_of(decimal(n)) == n,
        n < 100000 ==> decimal(n).len() <= 5,
        n < 10000 ==> decimal(n).len() <= 4,
        n < 1000 ==> decimal(n).len() <= 3,
        n < 100 ==> decimal(n).len() <= 2,
        n < 10 ==> decimal(n).len() <= 1,
    decreases n,
{
    if n < 10 {
        let one = seq![digit(n)];
        assert(one.drop_last() =~= Seq::<u8>::empty());
        assert(value_of(one.drop_last()) == 0);
        assert(one.last() == digit(n));
    } else {
        lemma_decimal(n / 10);
        let all = decimal(n / 10).push(digit(n % 10));
        assert(all.drop_last() =~= decimal(n / 10));
        assert(all.last() == digit(n % 10));
    }
}

/// Reading where a number in decimal begins, with something after it that
/// does not begin with a digit, finds that number and ends where what comes
/// after begins.
proof fn lemma_reads_decimal(
    bytes: Seq<u8>,
    start: int,
    n: nat,
    rest: Seq<u8>,
    value: nat,
    end: int,
)
    requires
        0 <= start <= bytes.len(),
        n <= 65535,
        bytes.subrange(start, bytes.len() as int) == decimal(n) + rest,
        rest.len() == 0 || !is_digit(rest[0]),
        reads(bytes, start, value, end),
    ensures
        end == start + decimal(n).len(),
        value == n,
        bytes.subrange(end, bytes.len() as int) == rest,
{
    lemma_decimal(n);
    let number = decimal(n);
    let from = bytes.subrange(start, bytes.len() as int);
    let stop = start + number.len();
    assert(from.len() == number.len() + rest.len());
    assert forall|i: int| start <= i < stop implies is_digit(#[trigger] bytes[i]) by {
        assert(bytes[i] == from[i - start]);
        assert(from[i - start] == number[i - start]);
    }
    if stop < bytes.len() {
        assert(bytes[stop] == from[stop - start]);
        assert(from[stop - start] == rest[0]);
    }
    if end < stop {
        assert(is_digit(bytes[end]));
    }
    if end > stop {
        assert(is_digit(bytes[stop]));
    }
    assert(end == stop);
    assert(bytes.subrange(start, end) =~= number);
    lemma_rest_follows(bytes, start, number, rest);
}

/// Bytes that go on with `first + rest` from `start` go on with `rest`
/// behind `first`.
proof fn lemma_rest_follows(bytes: Seq<u8>, start: int, first: Seq<u8>, rest: Seq<u8>)
    requires
        0 <= start <= bytes.len(),
        bytes.subrange(start, bytes.len() as int) == first + rest,
    ensures
        start + first.len() <= bytes.len(),
        bytes.subrange(start, start + first.len()) == first,
        bytes.subrange(start + first.len(), bytes.len() as int) == rest,
{
    let from = bytes.subrange(start, bytes.len() as int);
    let stop = start + first.len();
    assert(from.len() == first.len() + rest.len());
    let head = bytes.subrange(start, stop);
    let tail = bytes.subrange(stop, bytes.len() as int);
    assert forall|i: int| 0 <= i < head.len() implies head[i] == first[i] by {
        assert(head[i] == from[i]);
    }
    assert forall|i: int| 0 <= i < tail.len() implies tail[i] == rest[i] by {
        assert(tail[i] == from[first.len() + i]);
    }
    assert(head =~= first);
    assert(tail =~= rest);
}

/// Where the next number begins after one that ended at `end`: behind the
/// byte that separates them, or at the end of the bytes.
spec fn after(bytes: Seq<u8>, end: int) -> int {
    if end < bytes.len() {
        end + 1
    } else {
        end
    }
}

/// Bytes that begin with a separator and go on with `rest` have the
/// separator at their first place and `rest` behind it.
proof fn lemma_separator(bytes: Seq<u8>, end: int, mark: u8, rest: Seq<u8>)
    requires
        0 <= end <= bytes.len(),
        bytes.subrange(end, bytes.len() as int) == seq![mark] + rest,
    ensures
        end < bytes.len(),
        bytes[end] == mark,
        bytes.subrange(after(bytes, end), bytes.len() as int) == rest,
{
    let from = bytes.subrange(end, bytes.len() as int);
    assert(from.len() == 1 + rest.len());
    assert(bytes[end] == from[0]);
    lemma_rest_follows(bytes, end, seq![mark], rest);
}

/// Reading the five numbers of a base URL finds the address it was made
/// of.
proof fn lemma_reads_url(
    bytes: Seq<u8>,
    addr: Address,
    a: (nat, int),
    b: (nat, int),
    c: (nat, int),
    d: (nat, int),
    port: (nat, int),
)
    requires
        bytes == url_of(addr),
        reads(bytes, 7, a.0, a.1),
        reads(bytes, after(bytes, a.1), b.0, b.1),
        reads(bytes, after(bytes, b.1), c.0, c.1),
        reads(bytes, after(bytes, c.1), d.0, d.1),
        reads(bytes, after(bytes, d.1), port.0, port.1),
    ensures
        a.0 == addr.a,
        b.0 == addr.b,
        c.0 == addr.c,
        d.0 == addr.d,
        port.0 == addr.port,
{
    let len = bytes.len() as int;
    let r4 = decimal(addr.port as nat);
    let r3 = decimal(addr.d as nat) + (seq![58u8] + r4);
    let r2 = decimal(addr.c as nat) + (seq![46u8] + r3);
    let r1 = decimal(addr.b as nat) + (seq![46u8] + r2);
    assert(host_port(addr) == decimal(addr.a as nat) + (seq![46u8] + r1));
    assert(bytes.subrange(7, len) =~= host_port(addr));
    lemma_reads_decimal(bytes, 7, addr.a as nat, seq![46u8] + r1, a.0, a.1);
    lemma_separator(bytes, a.1, 46u8, r1);
    lemma_reads_decimal(bytes, after(bytes, a.1), addr.b as nat, seq![46u8] + r2, b.0, b.1);
    lemma_separator(bytes, b.1, 46u8, r2);
    lemma_reads_decimal(bytes, after(bytes, b.1), addr.c as nat, seq![46u8] + r3, c.0, c.1);
    lemma_separator(bytes, c.1, 46u8, r3);
    lemma_reads_decimal(bytes, after(bytes, c.1), addr.d as nat, seq![58u8] + r4, d.0, d.1);
    lemma_separator(bytes, d.1, 58u8, r4);
    assert(r4 =~= r4 + Seq::<u8>::empty());
    lemma_reads_decimal(
        bytes,
        after(bytes, d.1),
        addr.port as nat,
        Seq::<u8>::empty(),
        port.0,
        port.1,
    );
}

/// Whether two runs of bytes are the same.
fn same_bytes(left: &[u8], right: &[u8]) -> (same: bool)
    ensures
        same == (left@ == right@),
{
    if left.len() != right.len() {
        return false;
    }
    let mut i: usize = 0;
    while i < left.len()
        invariant
            i <= left@.len(),
            left@.len() == right@.len(),
            forall|k: int| 0 <= k < i ==> left@[k] == right@[k],
        decreases left@.len() - i,
    {
        if left[i] != right[i] {
            return false;
        }
        i += 1;
    }
    assert(left@ =~= right@);
    true
}

/// Where to read on after a number that ended at `end`.
fn next_start(bytes: &[u8], end: usize) -> (start: usize)
    requires
        end <= bytes@.len(),
    ensures
        start == after(bytes@, end as int),
{
    if end < bytes.len() {
        end + 1
    } else {
        end
    }
}

/// Reads a base URL. The result is the address whose base URL the bytes
/// are, and `None` if they are the base URL of no address.
pub fn parse_base_url(bytes: &[u8]) -> (addr: Option<Address>)
    ensures
        addr matches Some(found) ==> bytes@ == url_of(found),
        forall|any: Address| bytes@ == url_of(any) ==> addr == Some(any),
{
    if bytes.len() < 7 {
        proof {
            assert forall|any: Address| bytes@ != url_of(any) by {
                law_base_url_is_unique(any, any);
            }
        }
        return None;
    }
    let a = read_number(bytes, 7);
    let b = read_number(bytes, next_start(bytes, a.1));
    let c = read_number(bytes, next_start(bytes, b.1));
    let d = read_number(bytes, next_start(bytes, c.1));
    let port = read_number(bytes, next_start(bytes, d.1));
    proof {
        assert forall|any: Address| bytes@ == url_of(any) implies a.0 == any.a && b.0 == any.b
            && c.0 == any.c && d.0 == any.d && port.0 == any.port by {
            lemma_reads_url(
                bytes@,
                any,
                (a.0 as nat, a.1 as int),
                (b.0 as nat, b.1 as int),
                (c.0 as nat, c.1 as int),
                (d.0 as nat, d.1 as int),
                (port.0 as nat, port.1 as int),
            );
        }
    }
    if a.0 > 255 || b.0 > 255 || c.0 > 255 || d.0 > 255 || port.0 > 65535 {
        return None;
    }
    let found = Address {
        a: a.0 as u8,
        b: b.0 as u8,
        c: c.0 as u8,
        d: d.0 as u8,
        port: port.0 as u16,
    };
    let url = base_url(found);
    if same_bytes(url.as_slice(), bytes) {
        Some(found)
    } else {
        None
    }
}

/// No two addresses have the same base URL, so reading the base URL of an
/// address gives back that address. A base URL has sixteen bytes at least.
pub proof fn law_base_url_is_unique(addr: Address, other: Address)
    ensures
        url_of(addr).len() >= 16,
        url_of(addr) == url_of(other) ==> addr == other,
{
    lemma_decimal(addr.a as nat);
    lemma_decimal(addr.b as nat);
    lemma_decimal(addr.c as nat);
    lemma_decimal(addr.d as nat);
    lemma_decimal(addr.port as nat);
    if url_of(addr) == url_of(other) {
        lemma_same_url_same_address(addr, other);
    }
}

/// Reading where a number in decimal begins, with something after it that
/// does not begin with a digit, can end behind the number with that number
/// as what was found.
proof fn lemma_decimal_is_read(bytes: Seq<u8>, start: int, n: nat, rest: Seq<u8>) -> (end: int)
    requires
        0 <= start <= bytes.len(),
        n <= 65535,
        bytes.subrange(start, bytes.len() as int) == decimal(n) + rest,
        rest.len() == 0 || !is_digit(rest[0]),
    ensures
        end == start + decimal(n).len(),
        reads(bytes, start, n, end),
        bytes.subrange(end, bytes.len() as int) == rest,
{
    lemma_decimal(n);
    lemma_rest_follows(bytes, start, decimal(n), rest);
    let end = start + decimal(n).len();
    let number = bytes.subrange(start, end);
    assert forall|i: int| start <= i < end implies is_digit(#[trigger] bytes[i]) by {
        assert(bytes[i] == number[i - start]);
    }
    if end < bytes.len() {
        assert(bytes[end] == bytes.subrange(end, bytes.len() as int)[0]);
    }
    end
}

/// Two addresses with the same base URL are the same.
proof fn lemma_same_url_same_address(addr: Address, other: Address)
    requires
        url_of(addr) == url_of(other),
    ensures
        addr == other,
{
    let bytes = url_of(addr);
    let len = bytes.len() as int;
    let r4 = decimal(addr.port as nat);
    let r3 = decimal(addr.d as nat) + (seq![58u8] + r4);
    let r2 = decimal(addr.c as nat) + (seq![46u8] + r3);
    let r1 = decimal(addr.b as nat) + (seq![46u8] + r2);
    assert(host_port(addr) == decimal(addr.a as nat) + (seq![46u8] + r1));
    assert(bytes.subrange(7, len) =~= host_port(addr));
    let a1 = lemma_decimal_is_read(bytes, 7, addr.a as nat, seq![46u8] + r1);
    lemma_separator(bytes, a1, 46u8, r1);
    let b1 = lemma_decimal_is_read(bytes, after(bytes, a1), addr.b as nat, seq![46u8] + r2);
    lemma_separator(bytes, b1, 46u8, r2);
    let c1 = lemma_decimal_is_read(bytes, after(bytes, b1), addr.c as nat, seq![46u8] + r3);
    lemma_separator(bytes, c1, 46u8, r3);
    let d1 = lemma_decimal_is_read(bytes, after(bytes, c1), addr.d as nat, seq![58u8] + r4);
    lemma_separator(bytes, d1, 58u8, r4);
    assert(r4 =~= r4 + Seq::<u8>::empty());
    let port_end = lemma_decimal_is_read(
        bytes,
        after(bytes, d1),
        addr.port as nat,
        Seq::<u8>::empty(),
    );
    lemma_reads_url(
        bytes,
        other,
        (addr.a as nat, a1),
        (addr.b as nat, b1),
        (addr.c as nat, c1),
        (addr.d as nat, d1),
        (addr.port as nat, port_end),
    );
}

} // verus!
