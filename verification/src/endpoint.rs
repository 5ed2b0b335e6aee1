//! Formatting of `host:port` endpoints into a fixed stack buffer.
use vstd::prelude::*;
use crate::block::byte_chars;
use crate::text::{
    char_byte_roundtrip, decimal, digit_char, lemma_decimal_digits, lemma_decimal_reads_back, unsigned_value,
};
use vstd::string::StringSliceAdditionalSpecFns;

verus! {

/// The bytes of an ASCII character sequence.
pub open spec fn ascii_bytes(s: Seq<char>) -> Seq<u8> {
    s.map_values(|c: char| c as u8)
}

/// The bytes of `addr:port`.
pub open spec fn endpoint_bytes(addr: Seq<u8>, port: nat) -> Seq<u8> {
    addr + seq![58u8] + ascii_bytes(decimal(port))
}

/// The port in a formatted endpoint reads back as the port: the bytes after
/// the address and the `:` are a decimal numeral of it.
pub proof fn lemma_endpoint_port_reads_back(addr: Seq<u8>, port: nat)
    ensures
        endpoint_bytes(addr, port).subrange(0, addr.len() as int) == addr,
        endpoint_bytes(addr, port)[addr.len() as int] == 58u8,
        byte_chars(
            endpoint_bytes(addr, port).subrange(
                addr.len() + 1int,
                endpoint_bytes(addr, port).len() as int,
            ),
        ) == decimal(port),
        unsigned_value(decimal(port)) == Some(port),
{
    let e = endpoint_bytes(addr, port);
    let d = decimal(port);
    lemma_decimal_digits(port);
    lemma_decimal_reads_back(port);
    assert(e.subrange(0, addr.len() as int) =~= addr);
    let tail = e.subrange(addr.len() + 1int, e.len() as int);
    assert(tail =~= ascii_bytes(d));
    assert forall|i: int| 0 <= i < d.len() implies (d[i] as u8) as char == d[i] by {
        char_byte_roundtrip(d[i]);
    }
    assert(byte_chars(tail) =~= d);
}

/// Writes the decimal digits of `n` into `buf` from `pos` on and returns the
/// position after the last digit.
fn write_decimal(buf: &mut [u8; 48], pos: usize, n: u16) -> (end: usize)
    requires
        pos + decimal(n as nat).len() <= 48,
    ensures
        end == pos + decimal(n as nat).len(),
        final(buf)@.subrange(pos as int, end as int) == ascii_bytes(decimal(n as nat)),
        forall|i: int| 0 <= i < 48 && !(pos <= i < end) ==> final(buf)@[i] == old(buf)@[i],
    decreases n,
{
    proof {
        lemma_decimal_digits(n as nat);
    }
    let mut p = pos;
    if n >= 10 {
        proof {
            assert(decimal(n as nat).len() == decimal((n / 10) as nat).len() + 1);
        }
        p = write_decimal(buf, pos, n / 10);
    }
    let ghost b1 = buf@;
    let d: u8 = (n % 10) as u8;
    buf[p] = 48u8 + d;
    proof {
        assert(digit_char((n % 10) as nat) as u8 == 48 + d);
        let ds = decimal(n as nat);
        if n >= 10 {
            let pre = decimal((n / 10) as nat);
            assert(ds == pre.push(digit_char((n % 10) as nat)));
            assert(buf@.subrange(pos as int, p as int) =~= b1.subrange(pos as int, p as int));
            assert(ascii_bytes(ds) =~= ascii_bytes(pre).push((48 + d) as u8));
            assert(buf@.subrange(pos as int, p + 1) =~= buf@.subrange(pos as int, p as int).push(
                (48 + d) as u8,
            ));
            assert(buf@.subrange(pos as int, p + 1) =~= ascii_bytes(ds));
        } else {
            assert(ds == seq![digit_char(n as nat)]);
            assert(buf@.subrange(pos as int, p + 1) =~= ascii_bytes(ds));
        }
    }
    p + 1
}

/// Writes `addr:port` to the front of `buf` and returns its length; the rest
/// of `buf` is unchanged. The port is written in decimal without leading
/// zeros.
pub fn fmt_endpoint(addr: &str, port: u16, buf: &mut [u8; 48]) -> (len: usize)
    requires
        addr.spec_bytes().len() + 1 + decimal(port as nat).len() <= 48,
    ensures
        len == addr.spec_bytes().len() + 1 + decimal(port as nat).len(),
        final(buf)@.subrange(0, len as int) == endpoint_bytes(addr.spec_bytes(), port as nat),
        final(buf)@.subrange(len as int, 48) == old(buf)@.subrange(len as int, 48),
{
    let ab = addr.as_bytes();
    let n = ab.len();
    let mut i: usize = 0;
    while i < n
        invariant
            n == ab@.len(),
            ab@ == addr.spec_bytes(),
            n + 1 + decimal(port as nat).len() <= 48,
            i <= n,
            buf@.len() == 48,
            buf@.subrange(0, i as int) == ab@.subrange(0, i as int),
            forall|j: int| i <= j < 48 ==> buf@[j] == old(buf)@[j],
        decreases n - i,
    {
        buf[i] = ab[i];
        i = i + 1;
        assert(buf@.subrange(0, i as int) =~= ab@.subrange(0, i as int));
    }
    buf[n] = 58u8;
    let ghost mid = buf@;
    let end = write_decimal(buf, n + 1, port);
    proof {
        assert(ab@.subrange(0, n as int) =~= ab@);
        assert(buf@.subrange(0, n as int) =~= mid.subrange(0, n as int));
        assert(buf@.subrange(0, end as int) =~= buf@.subrange(0, n as int) + seq![58u8]
            + buf@.subrange(n + 1, end as int));
        assert(buf@.subrange(end as int, 48) =~= old(buf)@.subrange(end as int, 48));
    }
    end
}

} // verus!
