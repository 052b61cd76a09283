//! Server addresses: the text of one record of a response, and the address
//! that marks the end of a list.

use crate::decimal::{
    append_decimal, decimal_text, digit_char, is_digit, lemma_decimal_digits,
    lemma_decimal_injective, lemma_decimal_len, lemma_digit_char_injective,
};
use crate::packet_ext::{be_u16, lemma_bytes_of_be_u16};
use vstd::prelude::*;
use vstd::string::StringExecFns;

verus! {

/// The number of bytes of one server record: four of address, two of port.
pub const RECORD_LEN: usize = 6;

/// The address that stands for "no more results". It is never a server.
pub const SENTINEL_ADDRESS: &'static str = "0.0.0.0:0";

/// The text of the address that ends a list.
pub open spec fn sentinel_text() -> Seq<char> {
    "0.0.0.0:0"@
}

/// The canonical text of a server address: the four octets in decimal with
/// dots between them, a colon, and the port in decimal.
pub open spec fn address_text(a: u8, b: u8, c: u8, d: u8, port: u16) -> Seq<char> {
    decimal_text(a as nat) + seq!['.'] + decimal_text(b as nat) + seq!['.'] + decimal_text(
        c as nat,
    ) + seq!['.'] + decimal_text(d as nat) + seq![':'] + decimal_text(port as nat)
}

/// The address text of a six-byte record: the address bytes in order, then
/// the port in network byte order.
pub open spec fn record_text(record: Seq<u8>) -> Seq<char>
    recommends
        record.len() == RECORD_LEN,
{
    address_text(record[0], record[1], record[2], record[3], be_u16(record[4], record[5]))
}

/// The record that ends a list: six zero bytes.
pub open spec fn sentinel_record() -> Seq<u8> {
    seq![0u8, 0u8, 0u8, 0u8, 0u8, 0u8]
}

/// Format a server address as `a.b.c.d:port`.
pub fn format_address(a: u8, b: u8, c: u8, d: u8, port: u16) -> (text: String)
    ensures
        text@ == address_text(a, b, c, d, port),
{
    proof {
        reveal_strlit(".");
        reveal_strlit(":");
    }
    let mut text = String::new();
    append_decimal(&mut text, a as u64);
    text.append(".");
    append_decimal(&mut text, b as u64);
    text.append(".");
    append_decimal(&mut text, c as u64);
    text.append(".");
    append_decimal(&mut text, d as u64);
    text.append(":");
    append_decimal(&mut text, port as u64);
    assert(text@ =~= address_text(a, b, c, d, port)) by {
        assert("."@ =~= seq!['.']);
        assert(":"@ =~= seq![':']);
    }
    text
}

/// The sentinel is the address text of the record of six zero bytes.
pub proof fn lemma_sentinel_is_zero_address()
    ensures
        sentinel_text() == address_text(0, 0, 0, 0, 0),
{
    reveal_strlit("0.0.0.0:0");
    assert(decimal_text(0) =~= seq!['0']);
    assert(sentinel_text() =~= address_text(0, 0, 0, 0, 0));
}

/// Only the address `0.0.0.0` with port `0` is written as the sentinel.
pub proof fn lemma_sentinel_only_for_zero_address(a: u8, b: u8, c: u8, d: u8, port: u16)
    ensures
        address_text(a, b, c, d, port) == sentinel_text() <==> a == 0 && b == 0 && c == 0 && d
            == 0 && port == 0,
{
    lemma_sentinel_is_zero_address();
    let text = address_text(a, b, c, d, port);
    if text == sentinel_text() {
        reveal_strlit("0.0.0.0:0");
        lemma_decimal_len(a as nat);
        lemma_decimal_len(b as nat);
        lemma_decimal_len(c as nat);
        lemma_decimal_len(d as nat);
        lemma_decimal_len(port as nat);
        assert(text.len() == 9);
        assert(text =~= seq![
            digit_char(a as nat),
            '.',
            digit_char(b as nat),
            '.',
            digit_char(c as nat),
            '.',
            digit_char(d as nat),
            ':',
            digit_char(port as nat),
        ]);
        assert(text[0] == '0' && text[2] == '0' && text[4] == '0' && text[6] == '0' && text[8]
            == '0');
        lemma_digit_char_injective(a as nat, 0);
        lemma_digit_char_injective(b as nat, 0);
        lemma_digit_char_injective(c as nat, 0);
        lemma_digit_char_injective(d as nat, 0);
        lemma_digit_char_injective(port as nat, 0);
    }
}

/// Among the records, only the one of six zero bytes is written as the
/// sentinel.
pub proof fn lemma_sentinel_only_for_zero_record(record: Seq<u8>)
    requires
        record.len() == RECORD_LEN,
    ensures
        record_text(record) == sentinel_text() <==> record == sentinel_record(),
{
    lemma_sentinel_only_for_zero_address(
        record[0],
        record[1],
        record[2],
        record[3],
        be_u16(record[4], record[5]),
    );
    if record_text(record) == sentinel_text() {
        assert(record =~= sentinel_record());
    }
}

/// Whether a text is free of the character `sep`.
pub open spec fn lacks(text: Seq<char>, sep: char) -> bool {
    forall|i: int| 0 <= i < text.len() ==> text[i] != sep
}

/// Two texts that agree, each made of a part without `sep`, then `sep`, then
/// a rest, agree part by part.
proof fn lemma_split_at_separator(
    x: Seq<char>,
    y: Seq<char>,
    sep: char,
    r: Seq<char>,
    s: Seq<char>,
)
    requires
        lacks(x, sep),
        lacks(y, sep),
        x + seq![sep] + r == y + seq![sep] + s,
    ensures
        x == y,
        r == s,
{
    let left = x + seq![sep] + r;
    let right = y + seq![sep] + s;
    assert(left[x.len() as int] == sep);
    assert(right[y.len() as int] == sep);
    if x.len() < y.len() {
        assert(right[x.len() as int] == y[x.len() as int]);
    } else if y.len() < x.len() {
        assert(left[y.len() as int] == x[y.len() as int]);
    }
    assert(x =~= left.take(x.len() as int));
    assert(y =~= right.take(y.len() as int));
    assert(r =~= left.skip(x.len() as int + 1));
    assert(s =~= right.skip(y.len() as int + 1));
}

/// A decimal text holds neither a dot nor a colon.
proof fn lemma_decimal_lacks_separators(n: nat)
    ensures
        lacks(decimal_text(n), '.'),
        lacks(decimal_text(n), ':'),
{
    lemma_decimal_digits(n);
    assert forall|i: int| 0 <= i < decimal_text(n).len() implies decimal_text(n)[i] != '.'
        && decimal_text(n)[i] != ':' by {
        assert(is_digit(decimal_text(n)[i]));
    }
}

/// Two texts of the shape `a.b.c.d:p` that agree, where no part before a
/// separator holds that separator, agree part by part.
proof fn lemma_parts_of_address(parts: Seq<Seq<char>>, others: Seq<Seq<char>>)
    requires
        parts.len() == 5,
        others.len() == 5,
        lacks(parts[0], '.') && lacks(parts[1], '.') && lacks(parts[2], '.') && lacks(
            parts[3],
            ':',
        ),
        lacks(others[0], '.') && lacks(others[1], '.') && lacks(others[2], '.') && lacks(
            others[3],
            ':',
        ),
        parts[0] + seq!['.'] + parts[1] + seq!['.'] + parts[2] + seq!['.'] + parts[3] + seq![':']
            + parts[4] == others[0] + seq!['.'] + others[1] + seq!['.'] + others[2] + seq!['.']
            + others[3] + seq![':'] + others[4],
    ensures
        parts == others,
{
    let r2 = parts[3] + seq![':'] + parts[4];
    let s2 = others[3] + seq![':'] + others[4];
    let r1 = parts[2] + seq!['.'] + r2;
    let s1 = others[2] + seq!['.'] + s2;
    let r0 = parts[1] + seq!['.'] + r1;
    let s0 = others[1] + seq!['.'] + s1;
    assert(parts[0] + seq!['.'] + parts[1] + seq!['.'] + parts[2] + seq!['.'] + parts[3] + seq![
        ':',
    ] + parts[4] =~= parts[0] + seq!['.'] + r0);
    assert(others[0] + seq!['.'] + others[1] + seq!['.'] + others[2] + seq!['.'] + others[3]
        + seq![':'] + others[4] =~= others[0] + seq!['.'] + s0);
    lemma_split_at_separator(parts[0], others[0], '.', r0, s0);
    lemma_split_at_separator(parts[1], others[1], '.', r1, s1);
    lemma_split_at_separator(parts[2], others[2], '.', r2, s2);
    lemma_split_at_separator(parts[3], others[3], ':', parts[4], others[4]);
    assert(parts =~= others);
}

/// The text of an address is canonical: different addresses or ports are
/// written differently, so an address text names one record only.
pub proof fn lemma_address_text_injective(
    a: u8,
    b: u8,
    c: u8,
    d: u8,
    port: u16,
    a2: u8,
    b2: u8,
    c2: u8,
    d2: u8,
    port2: u16,
)
    requires
        address_text(a, b, c, d, port) == address_text(a2, b2, c2, d2, port2),
    ensures
        a == a2,
        b == b2,
        c == c2,
        d == d2,
        port == port2,
{
    let parts = seq![
        decimal_text(a as nat),
        decimal_text(b as nat),
        decimal_text(c as nat),
        decimal_text(d as nat),
        decimal_text(port as nat),
    ];
    let others = seq![
        decimal_text(a2 as nat),
        decimal_text(b2 as nat),
        decimal_text(c2 as nat),
        decimal_text(d2 as nat),
        decimal_text(port2 as nat),
    ];
    lemma_decimal_lacks_separators(a as nat);
    lemma_decimal_lacks_separators(b as nat);
    lemma_decimal_lacks_separators(c as nat);
    lemma_decimal_lacks_separators(d as nat);
    lemma_decimal_lacks_separators(a2 as nat);
    lemma_decimal_lacks_separators(b2 as nat);
    lemma_decimal_lacks_separators(c2 as nat);
    lemma_decimal_lacks_separators(d2 as nat);
    lemma_parts_of_address(parts, others);
    assert(parts[0] == others[0] && parts[1] == others[1] && parts[2] == others[2] && parts[3]
        == others[3] && parts[4] == others[4]);
    lemma_decimal_injective(a as nat, a2 as nat);
    lemma_decimal_injective(b as nat, b2 as nat);
    lemma_decimal_injective(c as nat, c2 as nat);
    lemma_decimal_injective(d as nat, d2 as nat);
    lemma_decimal_injective(port as nat, port2 as nat);
}

/// Different records are written as different addresses.
pub proof fn lemma_record_text_injective(record: Seq<u8>, other: Seq<u8>)
    requires
        record.len() == RECORD_LEN,
        other.len() == RECORD_LEN,
        record_text(record) == record_text(other),
    ensures
        record == other,
{
    lemma_address_text_injective(
        record[0],
        record[1],
        record[2],
        record[3],
        be_u16(record[4], record[5]),
        other[0],
        other[1],
        other[2],
        other[3],
        be_u16(other[4], other[5]),
    );
    lemma_bytes_of_be_u16(record[4], record[5]);
    lemma_bytes_of_be_u16(other[4], other[5]);
    assert(record =~= other);
}

} // verus!
