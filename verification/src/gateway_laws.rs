//! What holds of reading the default gateway and addresses out of what the
//! operating system reports, over all inputs.

use vstd::prelude::*;
use crate::ip::IpAddress;
use crate::gateway::ipv4_groups;
use crate::text::{
    lines, strip_cr, words, parse_hex_u32, contains_text, trim, starts_with, hex_digits_value, lemma_hex_prefix,
};
use crate::gateway::{
    address_from_le, default_destination, first_proc_route_gateway, proc_net_route_gateway,
    route_print_candidates, netstat_candidates, first_ipv4, first_ip, parse_ipv4_text, parse_ip_text,
    unspecified_text, default_text, fields, field_len, decimal_octet, decimal_value, is_decimal_digit,
    hex_group, groups_of, double_colon, ipv6_groups, ipv6_value,
};

verus! {

/// `s` holds no `c`.
pub open spec fn free_of(s: Seq<char>, c: char) -> bool {
    forall|i: int| 0 <= i < s.len() ==> s[i] != c
}

proof fn lemma_line_len(h: Seq<char>, rest: Seq<char>)
    requires
        free_of(h, '\n'),
    ensures
        crate::text::line_len(h + seq!['\n'] + rest) == h.len(),
    decreases h.len(),
{
    let s = h + seq!['\n'] + rest;
    if h.len() > 0 {
        assert(s[0] == h[0]);
        assert(s.drop_first() =~= h.drop_first() + seq!['\n'] + rest);
        lemma_line_len(h.drop_first(), rest);
    } else {
        assert(s[0] == '\n');
    }
}

/// A line ended by `'\n'` is the first line of what it starts, and the lines
/// after it are those of the rest.
pub proof fn lemma_lines_after_line(h: Seq<char>, rest: Seq<char>)
    requires
        free_of(h, '\n'),
    ensures
        lines(h + seq!['\n'] + rest) == seq![strip_cr(h)] + lines(rest),
{
    let s = h + seq!['\n'] + rest;
    lemma_line_len(h, rest);
    assert(s.take(h.len() as int) =~= h);
    assert(s.skip(h.len() + 1int) =~= rest);
}

/// Only the header line of `/proc/net/route` is passed over: the gateway is
/// that of the first of the lines after it that has one.
pub proof fn law_proc_route_skips_only_header(header: Seq<char>, body: Seq<char>)
    requires
        free_of(header, '\n'),
    ensures
        proc_net_route_gateway(header + seq!['\n'] + body) == first_proc_route_gateway(lines(body)),
{
    lemma_lines_after_line(header, body);
    assert((seq![strip_cr(header)] + lines(body)).drop_first() =~= lines(body));
}

/// The gateway of lines `a` then `b` is that of `a`, or, if `a` has none,
/// that of `b`.
pub proof fn law_proc_route_lines_in_order(a: Seq<Seq<char>>, b: Seq<Seq<char>>)
    ensures
        first_proc_route_gateway(a + b) == (match first_proc_route_gateway(a) {
            Some(g) => Some(g),
            None => first_proc_route_gateway(b),
        }),
    decreases a.len(),
{
    if a.len() == 0 {
        assert(a + b =~= b);
    } else {
        assert((a + b)[0] == a[0]);
        assert((a + b).drop_first() =~= a.drop_first() + b);
        law_proc_route_lines_in_order(a.drop_first(), b);
    }
}

/// The line right after the header is read: when it has at least eight
/// fields, destination `00000000` and a hexadecimal gateway `g`, the default
/// gateway is `g` read little-endian, whatever follows.
pub proof fn law_proc_route_first_default_line(header: Seq<char>, line: Seq<char>, rest: Seq<char>, g: u32)
    requires
        free_of(header, '\n'),
        free_of(line, '\n'),
        line.len() > 0,
        line.last() != '\r',
        words(line).len() >= 8,
        words(line)[1] == seq!['0', '0', '0', '0', '0', '0', '0', '0'],
        parse_hex_u32(words(line)[2]) == Some(g),
    ensures
        proc_net_route_gateway(header + seq!['\n'] + line + seq!['\n'] + rest) == Some(address_from_le(g)),
{
    assert(seq!['0', '0', '0', '0', '0', '0', '0', '0'] =~= default_destination());
    let body = line + seq!['\n'] + rest;
    assert(header + seq!['\n'] + line + seq!['\n'] + rest =~= header + seq!['\n'] + body);
    law_proc_route_skips_only_header(header, body);
    lemma_lines_after_line(line, rest);
    assert(strip_cr(line) == line);
    let ls = lines(body);
    assert(ls[0] == line);
}

/// A line of `/proc/net/route` with fewer than eight fields, a destination
/// other than `00000000`, or a gateway field that is not hexadecimal is
/// passed over.
pub proof fn law_proc_route_other_lines_passed_over(line: Seq<char>, rest: Seq<Seq<char>>)
    requires
        words(line).len() < 8 || words(line)[1] != seq!['0', '0', '0', '0', '0', '0', '0', '0'] || parse_hex_u32(
            words(line)[2],
        ) is None,
    ensures
        first_proc_route_gateway(seq![line] + rest) == first_proc_route_gateway(rest),
{
    assert(seq!['0', '0', '0', '0', '0', '0', '0', '0'] =~= default_destination());
    assert((seq![line] + rest)[0] == line);
    assert((seq![line] + rest).drop_first() =~= rest);
}

/// The candidates of lines `a` then `b` are those of `a`, then those of `b`.
pub proof fn law_route_print_candidates_concat(a: Seq<Seq<char>>, b: Seq<Seq<char>>)
    ensures
        route_print_candidates(a + b) == route_print_candidates(a) + route_print_candidates(b),
    decreases a.len(),
{
    if a.len() == 0 {
        assert(a + b =~= b);
        assert(route_print_candidates(a) + route_print_candidates(b) =~= route_print_candidates(b));
    } else {
        assert((a + b)[0] == a[0]);
        assert((a + b).drop_first() =~= a.drop_first() + b);
        law_route_print_candidates_concat(a.drop_first(), b);
        let fields = words(a[0]);
        let here = if contains_text(a[0], unspecified_text()) && fields.len() >= 3 {
            seq![fields[2]]
        } else {
            Seq::empty()
        };
        assert(here + (route_print_candidates(a.drop_first()) + route_print_candidates(b)) =~= (here
            + route_print_candidates(a.drop_first())) + route_print_candidates(b));
    }
}

proof fn lemma_route_print_one_line(x: Seq<char>)
    ensures
        route_print_candidates(seq![x]) == (if contains_text(x, unspecified_text()) && words(x).len() >= 3 {
            seq![words(x)[2]]
        } else {
            Seq::empty()
        }),
{
    let one = seq![x];
    assert(one[0] == x);
    assert(one.drop_first() =~= Seq::<Seq<char>>::empty());
    assert(route_print_candidates(one.drop_first()) =~= Seq::<Seq<char>>::empty());
    let here = if contains_text(x, unspecified_text()) && words(x).len() >= 3 {
        seq![words(x)[2]]
    } else {
        Seq::empty()
    };
    assert(here + Seq::<Seq<char>>::empty() =~= here);
}

/// A line of `route print` output that does not mention `0.0.0.0` changes
/// nothing, wherever it stands.
pub proof fn law_route_print_other_lines_do_not_matter(a: Seq<Seq<char>>, x: Seq<char>, b: Seq<Seq<char>>)
    requires
        !contains_text(x, seq!['0', '.', '0', '.', '0', '.', '0']),
    ensures
        route_print_candidates(a + seq![x] + b) == route_print_candidates(a + b),
{
    assert(seq!['0', '.', '0', '.', '0', '.', '0'] =~= unspecified_text());
    law_route_print_candidates_concat(a + seq![x], b);
    law_route_print_candidates_concat(a, seq![x]);
    law_route_print_candidates_concat(a, b);
    lemma_route_print_one_line(x);
    assert(route_print_candidates(seq![x]) =~= Seq::<Seq<char>>::empty());
    assert(route_print_candidates(a) + Seq::<Seq<char>>::empty() =~= route_print_candidates(a));
}

/// A line of `route print` output that mentions `0.0.0.0` and has at least
/// three fields offers its third field, wherever it stands.
pub proof fn law_route_print_line_offers_third_field(a: Seq<Seq<char>>, x: Seq<char>, b: Seq<Seq<char>>)
    requires
        contains_text(x, seq!['0', '.', '0', '.', '0', '.', '0']),
        words(x).len() >= 3,
    ensures
        route_print_candidates(a + seq![x] + b) == route_print_candidates(a) + seq![words(x)[2]]
            + route_print_candidates(b),
{
    assert(seq!['0', '.', '0', '.', '0', '.', '0'] =~= unspecified_text());
    law_route_print_candidates_concat(a + seq![x], b);
    law_route_print_candidates_concat(a, seq![x]);
    lemma_route_print_one_line(x);
    assert(route_print_candidates(seq![x]) =~= seq![words(x)[2]]);
}

/// The candidates of lines `a` then `b` are those of `a`, then those of `b`.
pub proof fn law_netstat_candidates_concat(a: Seq<Seq<char>>, b: Seq<Seq<char>>)
    ensures
        netstat_candidates(a + b) == netstat_candidates(a) + netstat_candidates(b),
    decreases a.len(),
{
    if a.len() == 0 {
        assert(a + b =~= b);
        assert(netstat_candidates(a) + netstat_candidates(b) =~= netstat_candidates(b));
    } else {
        assert((a + b)[0] == a[0]);
        assert((a + b).drop_first() =~= a.drop_first() + b);
        law_netstat_candidates_concat(a.drop_first(), b);
        let line = trim(a[0]);
        let fields = words(line);
        let here = if starts_with(line, default_text()) && fields.len() >= 2 {
            seq![fields[1]]
        } else {
            Seq::empty()
        };
        assert(here + (netstat_candidates(a.drop_first()) + netstat_candidates(b)) =~= (here
            + netstat_candidates(a.drop_first())) + netstat_candidates(b));
    }
}

/// The first IPv4 address among candidates `a` then `b` is the first in `a`,
/// or, if `a` has none, the first in `b`.
pub proof fn law_first_ipv4_in_order(a: Seq<Seq<char>>, b: Seq<Seq<char>>)
    ensures
        first_ipv4(a + b) == (match first_ipv4(a) {
            Some(x) => Some(x),
            None => first_ipv4(b),
        }),
    decreases a.len(),
{
    if a.len() == 0 {
        assert(a + b =~= b);
    } else {
        assert((a + b)[0] == a[0]);
        assert((a + b).drop_first() =~= a.drop_first() + b);
        law_first_ipv4_in_order(a.drop_first(), b);
    }
}

/// The first IP address among candidates `a` then `b` is the first in `a`,
/// or, if `a` has none, the first in `b`.
pub proof fn law_first_ip_in_order(a: Seq<Seq<char>>, b: Seq<Seq<char>>)
    ensures
        first_ip(a + b) == (match first_ip(a) {
            Some(x) => Some(x),
            None => first_ip(b),
        }),
    decreases a.len(),
{
    if a.len() == 0 {
        assert(a + b =~= b);
    } else {
        assert((a + b)[0] == a[0]);
        assert((a + b).drop_first() =~= a.drop_first() + b);
        law_first_ip_in_order(a.drop_first(), b);
    }
}

proof fn lemma_netstat_one_line(x: Seq<char>)
    ensures
        netstat_candidates(seq![x]) == (if starts_with(trim(x), default_text()) && words(trim(x)).len() >= 2 {
            seq![words(trim(x))[1]]
        } else {
            Seq::empty()
        }),
{
    let one = seq![x];
    assert(one[0] == x);
    assert(one.drop_first() =~= Seq::<Seq<char>>::empty());
    assert(netstat_candidates(one.drop_first()) =~= Seq::<Seq<char>>::empty());
    let here = if starts_with(trim(x), default_text()) && words(trim(x)).len() >= 2 {
        seq![words(trim(x))[1]]
    } else {
        Seq::empty()
    };
    assert(here + Seq::<Seq<char>>::empty() =~= here);
}

/// A line of `netstat -nr` output that, trimmed, does not start with
/// `default` changes nothing, wherever it stands.
pub proof fn law_netstat_other_lines_do_not_matter(a: Seq<Seq<char>>, x: Seq<char>, b: Seq<Seq<char>>)
    requires
        !starts_with(trim(x), seq!['d', 'e', 'f', 'a', 'u', 'l', 't']),
    ensures
        netstat_candidates(a + seq![x] + b) == netstat_candidates(a + b),
{
    assert(seq!['d', 'e', 'f', 'a', 'u', 'l', 't'] =~= default_text());
    law_netstat_candidates_concat(a + seq![x], b);
    law_netstat_candidates_concat(a, seq![x]);
    law_netstat_candidates_concat(a, b);
    lemma_netstat_one_line(x);
    assert(netstat_candidates(a) + Seq::<Seq<char>>::empty() =~= netstat_candidates(a));
}

/// A `default` line of `netstat -nr` output with at least two fields offers
/// its second field, wherever it stands.
pub proof fn law_netstat_default_line_offers_second_field(a: Seq<Seq<char>>, x: Seq<char>, b: Seq<Seq<char>>)
    requires
        starts_with(trim(x), seq!['d', 'e', 'f', 'a', 'u', 'l', 't']),
        words(trim(x)).len() >= 2,
    ensures
        netstat_candidates(a + seq![x] + b) == netstat_candidates(a) + seq![words(trim(x))[1]]
            + netstat_candidates(b),
{
    assert(seq!['d', 'e', 'f', 'a', 'u', 'l', 't'] =~= default_text());
    law_netstat_candidates_concat(a + seq![x], b);
    law_netstat_candidates_concat(a, seq![x]);
    lemma_netstat_one_line(x);
}

/// The decimal digit `d`, for `0 <= d <= 9`.
pub open spec fn digit_char(d: int) -> char {
    if d <= 0 {
        '0'
    } else if d == 1 {
        '1'
    } else if d == 2 {
        '2'
    } else if d == 3 {
        '3'
    } else if d == 4 {
        '4'
    } else if d == 5 {
        '5'
    } else if d == 6 {
        '6'
    } else if d == 7 {
        '7'
    } else if d == 8 {
        '8'
    } else {
        '9'
    }
}

/// `n`, below 1000, written in decimal without leading zeros.
pub open spec fn decimal_text(n: int) -> Seq<char> {
    if n < 10 {
        seq![digit_char(n)]
    } else if n < 100 {
        seq![digit_char(n / 10), digit_char(n % 10)]
    } else {
        seq![digit_char(n / 100), digit_char((n / 10) % 10), digit_char(n % 10)]
    }
}

/// The dotted-quad text of the address with octets `a`, `b`, `c`, `d`.
pub open spec fn dotted_quad(a: int, b: int, c: int, d: int) -> Seq<char> {
    decimal_text(a) + seq!['.'] + decimal_text(b) + seq!['.'] + decimal_text(c) + seq!['.'] + decimal_text(d)
}

/// The IPv4 address with octets `a`, `b`, `c`, `d`, the first most significant.
pub open spec fn ipv4_of_octets(a: int, b: int, c: int, d: int) -> IpAddress {
    IpAddress::V4((a * 0x100_0000 + b * 0x1_0000 + c * 0x100 + d) as u32)
}

proof fn lemma_digit_char(d: int)
    requires
        0 <= d <= 9,
    ensures
        is_decimal_digit(digit_char(d)),
        (digit_char(d) as u32) - 0x30 == d,
        digit_char(d) != '.',
        (digit_char(d) == '0') == (d == 0),
{
    if d == 0 {
    } else if d == 1 {
    } else if d == 2 {
    } else if d == 3 {
    } else if d == 4 {
    } else if d == 5 {
    } else if d == 6 {
    } else if d == 7 {
    } else if d == 8 {
    } else {
    }
}

proof fn lemma_decimal_text(n: int)
    requires
        0 <= n <= 999,
    ensures
        decimal_octet(decimal_text(n)) == (if n <= 255 {
            Some(n as nat)
        } else {
            None
        }),
        free_of(decimal_text(n), '.'),
        decimal_text(n).len() >= 1,
{
    let t = decimal_text(n);
    let e = Seq::<char>::empty();
    assert(decimal_value(e) == 0);
    if n < 10 {
        lemma_digit_char(n);
        assert(t.drop_last() =~= e);
        assert(decimal_value(t) == n);
    } else if n < 100 {
        lemma_digit_char(n / 10);
        lemma_digit_char(n % 10);
        assert(t.drop_last() =~= seq![digit_char(n / 10)]);
        assert(t.drop_last().drop_last() =~= e);
        assert(decimal_value(t.drop_last()) == n / 10);
        assert(decimal_value(t) == n);
    } else {
        lemma_digit_char(n / 100);
        lemma_digit_char((n / 10) % 10);
        lemma_digit_char(n % 10);
        let t1 = seq![digit_char(n / 100)];
        let t2 = seq![digit_char(n / 100), digit_char((n / 10) % 10)];
        assert(t.drop_last() =~= t2);
        assert(t2.drop_last() =~= t1);
        assert(t1.drop_last() =~= e);
        assert(decimal_value(t1) == n / 100);
        assert(decimal_value(t2) == n / 10);
        assert(decimal_value(t) == n);
    }
    assert forall|i: int| 0 <= i < t.len() implies is_decimal_digit(#[trigger] t[i]) && t[i] != '.' by {
    }
}

proof fn lemma_field_len(f: Seq<char>, x: Seq<char>, sep: char)
    requires
        free_of(f, sep),
        x.len() == 0 || x[0] == sep,
    ensures
        field_len(f + x, sep) == f.len(),
    decreases f.len(),
{
    let s = f + x;
    if f.len() > 0 {
        assert(s[0] == f[0]);
        assert(s.drop_first() =~= f.drop_first() + x);
        lemma_field_len(f.drop_first(), x, sep);
    } else {
        assert(s =~= x);
    }
}

/// A field free of the separator and ended by one is the first field.
proof fn lemma_fields_cons(f: Seq<char>, rest: Seq<char>, sep: char)
    requires
        free_of(f, sep),
    ensures
        fields(f + seq![sep] + rest, sep) == seq![f] + fields(rest, sep),
{
    let s = f + seq![sep] + rest;
    assert(s =~= f + (seq![sep] + rest));
    lemma_field_len(f, seq![sep] + rest, sep);
    assert(s.take(f.len() as int) =~= f);
    assert(s.skip(f.len() + 1int) =~= rest);
}

/// Text free of the separator is a single field.
proof fn lemma_fields_single(f: Seq<char>, sep: char)
    requires
        free_of(f, sep),
    ensures
        fields(f, sep) == seq![f],
{
    lemma_field_len(f, Seq::empty(), sep);
    assert(f + Seq::<char>::empty() =~= f);
}

/// Dotted-quad text round trip: the text of any four octets, each written in
/// decimal without leading zeros, reads back as the address with those
/// octets, as an IPv4 address and as an IP address.
pub proof fn law_dotted_quad_round_trip(a: int, b: int, c: int, d: int)
    requires
        0 <= a <= 255,
        0 <= b <= 255,
        0 <= c <= 255,
        0 <= d <= 255,
    ensures
        parse_ipv4_text(dotted_quad(a, b, c, d)) == Some(ipv4_of_octets(a, b, c, d)),
        parse_ip_text(dotted_quad(a, b, c, d)) == Some(ipv4_of_octets(a, b, c, d)),
{
    lemma_dotted_quad_fields(a, b, c, d);
    lemma_decimal_text(a);
    lemma_decimal_text(b);
    lemma_decimal_text(c);
    lemma_decimal_text(d);
    let f = fields(dotted_quad(a, b, c, d), '.');
    assert(f[0] == decimal_text(a) && f[1] == decimal_text(b) && f[2] == decimal_text(c) && f[3] == decimal_text(d));
}

proof fn lemma_dotted_quad_fields(a: int, b: int, c: int, d: int)
    requires
        0 <= a <= 999,
        0 <= b <= 999,
        0 <= c <= 999,
        0 <= d <= 999,
    ensures
        fields(dotted_quad(a, b, c, d), '.') == seq![decimal_text(a), decimal_text(b), decimal_text(c), decimal_text(d)],
{
    lemma_decimal_text(a);
    lemma_decimal_text(b);
    lemma_decimal_text(c);
    lemma_decimal_text(d);
    let fs = seq![decimal_text(a), decimal_text(b), decimal_text(c), decimal_text(d)];
    lemma_joined_four(fs, '.');
    assert(dotted_quad(a, b, c, d) =~= joined(fs, '.'));
    lemma_fields_of_joined(fs, '.');
}

/// `fs` written one after the other with `sep` between each two.
pub open spec fn joined(fs: Seq<Seq<char>>, sep: char) -> Seq<char>
    decreases fs.len(),
{
    if fs.len() == 0 {
        Seq::empty()
    } else if fs.len() == 1 {
        fs[0]
    } else {
        fs[0] + seq![sep] + joined(fs.drop_first(), sep)
    }
}

proof fn lemma_joined_four(fs: Seq<Seq<char>>, sep: char)
    requires
        fs.len() == 4,
    ensures
        joined(fs, sep) == fs[0] + seq![sep] + fs[1] + seq![sep] + fs[2] + seq![sep] + fs[3],
{
    let r1 = fs.drop_first();
    let r2 = r1.drop_first();
    let r3 = r2.drop_first();
    assert(r3.len() == 1 && r3[0] == fs[3]);
    assert(joined(r3, sep) == fs[3]);
    assert(joined(r2, sep) == fs[2] + seq![sep] + fs[3]);
    assert(joined(r1, sep) == fs[1] + seq![sep] + (fs[2] + seq![sep] + fs[3]));
    assert(joined(fs, sep) =~= fs[0] + seq![sep] + fs[1] + seq![sep] + fs[2] + seq![sep] + fs[3]);
}

/// Splitting at `sep` gives back fields free of `sep` that were joined with it.
pub proof fn lemma_fields_of_joined(fs: Seq<Seq<char>>, sep: char)
    requires
        fs.len() >= 1,
        forall|i: int| 0 <= i < fs.len() ==> free_of(#[trigger] fs[i], sep),
    ensures
        fields(joined(fs, sep), sep) == fs,
    decreases fs.len(),
{
    if fs.len() == 1 {
        lemma_fields_single(fs[0], sep);
        assert(seq![fs[0]] =~= fs);
    } else {
        let rest = fs.drop_first();
        assert(free_of(fs[0], sep));
        assert forall|i: int| 0 <= i < rest.len() implies free_of(#[trigger] rest[i], sep) by {
            assert(rest[i] == fs[i + 1]);
        }
        lemma_fields_of_joined(rest, sep);
        lemma_fields_cons(fs[0], joined(rest, sep), sep);
        assert(seq![fs[0]] + rest =~= fs);
    }
}

/// Text that does not split at dots into exactly four fields is not an IPv4
/// address.
pub proof fn law_ipv4_needs_four_fields(fs: Seq<Seq<char>>)
    requires
        fs.len() >= 1,
        fs.len() != 4,
        forall|i: int| 0 <= i < fs.len() ==> free_of(#[trigger] fs[i], '.'),
    ensures
        parse_ipv4_text(joined(fs, '.')) is None,
{
    lemma_fields_of_joined(fs, '.');
}

/// A field that is empty, longer than three characters, has a leading zero,
/// or holds anything but the digits `0` to `9`, makes the text not an IPv4
/// address, whichever of the four fields it is.
pub proof fn law_ipv4_rejects_malformed_field(fs: Seq<Seq<char>>, k: int)
    requires
        fs.len() == 4,
        forall|i: int| 0 <= i < 4 ==> free_of(#[trigger] fs[i], '.'),
        0 <= k < 4,
        ({
            let f = fs[k];
            ||| f.len() == 0
            ||| f.len() > 3
            ||| (f.len() > 1 && f[0] == '0')
            ||| exists|i: int| 0 <= i < f.len() && ((#[trigger] f[i] as u32) < 0x30 || (f[i] as u32) > 0x39)
        }),
    ensures
        parse_ipv4_text(joined(fs, '.')) is None,
{
    lemma_fields_of_joined(fs, '.');
    let f = fs[k];
    if exists|i: int| 0 <= i < f.len() && ((#[trigger] f[i] as u32) < 0x30 || (f[i] as u32) > 0x39) {
        let i = choose|i: int| 0 <= i < f.len() && ((#[trigger] f[i] as u32) < 0x30 || (f[i] as u32) > 0x39);
        assert(!is_decimal_digit(f[i]));
    }
    assert(decimal_octet(f) is None);
}

/// A field of value above 255, written in decimal, makes the text not an
/// IPv4 address, whichever of the four fields it is.
pub proof fn law_ipv4_rejects_octet_over_255(fs: Seq<Seq<char>>, k: int, n: int)
    requires
        fs.len() == 4,
        forall|i: int| 0 <= i < 4 ==> free_of(#[trigger] fs[i], '.'),
        0 <= k < 4,
        256 <= n <= 999,
        fs[k] == decimal_text(n),
    ensures
        parse_ipv4_text(joined(fs, '.')) is None,
{
    lemma_fields_of_joined(fs, '.');
    lemma_decimal_text(n);
}

/// A `default` line of `netstat -nr` output whose gateway field is the
/// dotted-quad text of an address gives that address as the default gateway
/// when no earlier `default` line gives one.
pub proof fn law_netstat_default_line_gives_address(
    before: Seq<Seq<char>>,
    x: Seq<char>,
    after: Seq<Seq<char>>,
    a: int,
    b: int,
    c: int,
    d: int,
)
    requires
        0 <= a <= 255,
        0 <= b <= 255,
        0 <= c <= 255,
        0 <= d <= 255,
        first_ip(netstat_candidates(before)) is None,
        starts_with(trim(x), seq!['d', 'e', 'f', 'a', 'u', 'l', 't']),
        words(trim(x)).len() >= 2,
        words(trim(x))[1] == dotted_quad(a, b, c, d),
    ensures
        first_ip(netstat_candidates(before + seq![x] + after)) == Some(ipv4_of_octets(a, b, c, d)),
{
    assert(seq!['d', 'e', 'f', 'a', 'u', 'l', 't'] =~= default_text());
    law_netstat_default_line_offers_second_field(before, x, after);
    law_dotted_quad_round_trip(a, b, c, d);
    let g = seq![dotted_quad(a, b, c, d)];
    let rest = netstat_candidates(after);
    law_first_ip_in_order(netstat_candidates(before), g + rest);
    law_first_ip_in_order(g, rest);
    assert(netstat_candidates(before) + g + rest =~= netstat_candidates(before) + (g + rest));
    assert(g[0] == dotted_quad(a, b, c, d));
}

/// A line of `route print` output that mentions `0.0.0.0` and whose third
/// field is the dotted-quad text of an address gives that address as the
/// default gateway when no earlier line gives one.
pub proof fn law_route_print_line_gives_address(
    before: Seq<Seq<char>>,
    x: Seq<char>,
    after: Seq<Seq<char>>,
    a: int,
    b: int,
    c: int,
    d: int,
)
    requires
        0 <= a <= 255,
        0 <= b <= 255,
        0 <= c <= 255,
        0 <= d <= 255,
        first_ipv4(route_print_candidates(before)) is None,
        contains_text(x, seq!['0', '.', '0', '.', '0', '.', '0']),
        words(x).len() >= 3,
        words(x)[2] == dotted_quad(a, b, c, d),
    ensures
        first_ipv4(route_print_candidates(before + seq![x] + after)) == Some(ipv4_of_octets(a, b, c, d)),
{
    assert(seq!['0', '.', '0', '.', '0', '.', '0'] =~= unspecified_text());
    law_route_print_line_offers_third_field(before, x, after);
    law_dotted_quad_round_trip(a, b, c, d);
    let g = seq![dotted_quad(a, b, c, d)];
    let rest = route_print_candidates(after);
    law_first_ipv4_in_order(route_print_candidates(before), g + rest);
    law_first_ipv4_in_order(g, rest);
    assert(route_print_candidates(before) + g + rest =~= route_print_candidates(before) + (g + rest));
    assert(g[0] == dotted_quad(a, b, c, d));
}

/// The hexadecimal digit `d`, for `0 <= d <= 15`, in lower case, or in upper
/// case where `upper` holds.
pub open spec fn hex_char(d: int, upper: bool) -> char {
    if d <= 9 {
        digit_char(d)
    } else if !upper {
        if d == 10 {
            'a'
        } else if d == 11 {
            'b'
        } else if d == 12 {
            'c'
        } else if d == 13 {
            'd'
        } else if d == 14 {
            'e'
        } else {
            'f'
        }
    } else {
        if d == 10 {
            'A'
        } else if d == 11 {
            'B'
        } else if d == 12 {
            'C'
        } else if d == 13 {
            'D'
        } else if d == 14 {
            'E'
        } else {
            'F'
        }
    }
}

/// The digits `ds`, most significant first, written in hexadecimal.
pub open spec fn hex_text(ds: Seq<int>, upper: bool) -> Seq<char> {
    ds.map_values(|d: int| hex_char(d, upper))
}

/// The number whose base-16 digits, most significant first, are `ds`.
pub open spec fn base16(ds: Seq<int>) -> int
    decreases ds.len(),
{
    if ds.len() == 0 {
        0
    } else {
        base16(ds.drop_last()) * 16 + ds.last()
    }
}

/// `16` to the power `n`.
pub open spec fn pow16(n: nat) -> int
    decreases n,
{
    if n == 0 {
        1
    } else {
        16 * pow16((n - 1) as nat)
    }
}

proof fn lemma_hex_char(d: int, upper: bool)
    requires
        0 <= d <= 15,
    ensures
        crate::text::hex_digit_value(hex_char(d, upper)) == Some(d as nat),
        hex_char(d, upper) != ':',
        hex_char(d, upper) != '.',
{
    if d <= 9 {
        lemma_digit_char(d);
    }
}

proof fn lemma_hex_text_value(ds: Seq<int>, upper: bool)
    requires
        forall|i: int| 0 <= i < ds.len() ==> 0 <= #[trigger] ds[i] <= 15,
    ensures
        hex_digits_value(hex_text(ds, upper)) == Some(base16(ds) as nat),
        0 <= base16(ds) < pow16(ds.len()),
    decreases ds.len(),
{
    let t = hex_text(ds, upper);
    if ds.len() > 0 {
        let init = ds.drop_last();
        assert(t.drop_last() =~= hex_text(init, upper));
        assert(t.last() == hex_char(ds.last(), upper));
        lemma_hex_char(ds.last(), upper);
        lemma_hex_text_value(init, upper);
    }
}

proof fn lemma_pow16_bound(n: nat)
    requires
        n <= 8,
    ensures
        pow16(n) <= 0x1_0000_0000,
    decreases 8 - n,
{
    if n < 8 {
        lemma_pow16_bound(n + 1);
        assert(pow16(n + 1) == 16 * pow16(n));
    } else {
        assert(pow16(0) == 1);
        assert(pow16(1) == 0x10);
        assert(pow16(2) == 0x100);
        assert(pow16(3) == 0x1000);
        assert(pow16(4) == 0x1_0000);
        assert(pow16(5) == 0x10_0000);
        assert(pow16(6) == 0x100_0000);
        assert(pow16(7) == 0x1000_0000);
        assert(pow16(8) == 0x1_0000_0000);
    }
}

/// One to eight hexadecimal digits, in either case, read back as the number
/// they write, as `u32::from_str_radix(_, 16)` reads them.
pub proof fn law_hex_round_trip(ds: Seq<int>, upper: bool)
    requires
        1 <= ds.len() <= 8,
        forall|i: int| 0 <= i < ds.len() ==> 0 <= #[trigger] ds[i] <= 15,
    ensures
        parse_hex_u32(hex_text(ds, upper)) == Some(base16(ds) as u32),
        0 <= base16(ds) <= u32::MAX,
{
    lemma_hex_text_value(ds, upper);
    lemma_pow16_bound(ds.len());
    let t = hex_text(ds, upper);
    assert(t[0] == hex_char(ds[0], upper));
    if ds[0] <= 9 {
        lemma_digit_char(ds[0]);
    }
}

/// `/proc/net/route` writes an address as the number whose bytes, from least
/// to most significant, are the octets of the address in order.
pub proof fn law_proc_route_address_bytes(a: int, b: int, c: int, d: int)
    requires
        0 <= a <= 255,
        0 <= b <= 255,
        0 <= c <= 255,
        0 <= d <= 255,
    ensures
        address_from_le((a + b * 0x100 + c * 0x1_0000 + d * 0x100_0000) as u32) == ipv4_of_octets(a, b, c, d),
{
    let v = a + b * 0x100 + c * 0x1_0000 + d * 0x100_0000;
    let w = (a + b * 0x100 + c * 0x1_0000 + d * 0x100_0000) as u32;
    assert(w == v);
    let q1 = b + c * 0x100 + d * 0x1_0000;
    let q2 = c + d * 0x100;
    vstd::arithmetic::div_mod::lemma_fundamental_div_mod_converse(v, 0x100, q1, a);
    vstd::arithmetic::div_mod::lemma_fundamental_div_mod_converse(q1, 0x100, q2, b);
    vstd::arithmetic::div_mod::lemma_fundamental_div_mod_converse(v, 0x1_0000, q2, a + b * 0x100);
    vstd::arithmetic::div_mod::lemma_fundamental_div_mod_converse(q2, 0x100, d, c);
    vstd::arithmetic::div_mod::lemma_fundamental_div_mod_converse(v, 0x100_0000, d, a + b * 0x100 + c * 0x1_0000);
}

/// Every group of `gs` has one to four hexadecimal digits.
pub open spec fn valid_groups(gs: Seq<Seq<int>>) -> bool {
    forall|i: int|
        0 <= i < gs.len() ==> 1 <= (#[trigger] gs[i]).len() <= 4 && forall|j: int|
            0 <= j < gs[i].len() ==> 0 <= #[trigger] gs[i][j] <= 15
}

/// The groups `gs` written in hexadecimal.
pub open spec fn group_texts(gs: Seq<Seq<int>>, upper: bool) -> Seq<Seq<char>> {
    gs.map_values(|ds: Seq<int>| hex_text(ds, upper))
}

/// The 128-bit number whose 16-bit groups, most significant first, are the
/// numbers that the eight groups `gs` write.
pub open spec fn ipv6_number(gs: Seq<Seq<int>>) -> int {
    base16(gs[0]) * 0x1_0000_0000_0000_0000_0000_0000_0000 + base16(gs[1]) * 0x1_0000_0000_0000_0000_0000_0000
        + base16(gs[2]) * 0x1_0000_0000_0000_0000_0000 + base16(gs[3]) * 0x1_0000_0000_0000_0000 + base16(gs[4])
        * 0x1_0000_0000_0000 + base16(gs[5]) * 0x1_0000_0000 + base16(gs[6]) * 0x1_0000 + base16(gs[7])
}

proof fn lemma_group_text(ds: Seq<int>, upper: bool)
    requires
        1 <= ds.len() <= 4,
        forall|j: int| 0 <= j < ds.len() ==> 0 <= #[trigger] ds[j] <= 15,
    ensures
        hex_group(hex_text(ds, upper)) == Some(base16(ds) as nat),
        0 <= base16(ds) < 0x1_0000,
        free_of(hex_text(ds, upper), ':'),
        free_of(hex_text(ds, upper), '.'),
        hex_text(ds, upper).len() == ds.len(),
{
    lemma_hex_text_value(ds, upper);
    lemma_pow16_bound(ds.len());
    assert(pow16(0) == 1);
    assert(pow16(1) == 0x10);
    assert(pow16(2) == 0x100);
    assert(pow16(3) == 0x1000);
    assert(pow16(4) == 0x1_0000);
    let t = hex_text(ds, upper);
    assert forall|i: int| 0 <= i < t.len() implies t[i] != ':' && t[i] != '.' by {
        lemma_hex_char(ds[i], upper);
    }
}

/// Text joined from pieces free of `c` with a separator other than `c` is free of `c`.
proof fn lemma_joined_free(ps: Seq<Seq<char>>, sep: char, c: char)
    requires
        sep != c,
        forall|i: int| 0 <= i < ps.len() ==> free_of(#[trigger] ps[i], c),
    ensures
        free_of(joined(ps, sep), c),
    decreases ps.len(),
{
    if ps.len() == 1 {
        assert(free_of(ps[0], c));
    } else if ps.len() > 1 {
        let rest = ps.drop_first();
        assert forall|i: int| 0 <= i < rest.len() implies free_of(#[trigger] rest[i], c) by {
            assert(rest[i] == ps[i + 1]);
        }
        lemma_joined_free(rest, sep, c);
        assert(free_of(ps[0], c));
        let s = joined(ps, sep);
        let r = joined(rest, sep);
        assert forall|i: int| 0 <= i < s.len() implies s[i] != c by {
            if i < ps[0].len() {
                assert(s[i] == ps[0][i]);
            } else if i > ps[0].len() {
                assert(s[i] == r[i - ps[0].len() - 1]);
            }
        }
    }
}

/// Joined non-empty pieces begin with the first character of the first piece.
proof fn lemma_joined_first(ps: Seq<Seq<char>>, sep: char)
    requires
        ps.len() >= 1,
        ps[0].len() >= 1,
    ensures
        joined(ps, sep).len() >= 1,
        joined(ps, sep)[0] == ps[0][0],
{
}

/// Pieces that are non-empty and hold no `':'`, joined with `':'`, hold no `"::"`.
proof fn lemma_joined_no_double_colon(ps: Seq<Seq<char>>)
    requires
        ps.len() >= 1,
        forall|i: int| 0 <= i < ps.len() ==> free_of(#[trigger] ps[i], ':') && ps[i].len() >= 1,
    ensures
        ({
            let s = joined(ps, ':');
            forall|j: int| 0 <= j && j + 1 < s.len() ==> !(#[trigger] s[j] == ':' && s[j + 1] == ':')
        }),
    decreases ps.len(),
{
    let s = joined(ps, ':');
    assert(free_of(ps[0], ':') && ps[0].len() >= 1);
    if ps.len() > 1 {
        let rest = ps.drop_first();
        assert forall|i: int| 0 <= i < rest.len() implies free_of(#[trigger] rest[i], ':') && rest[i].len() >= 1 by {
            assert(rest[i] == ps[i + 1]);
        }
        lemma_joined_no_double_colon(rest);
        let r = joined(rest, ':');
        assert(rest[0] == ps[1]);
        assert(free_of(ps[1], ':') && ps[1].len() >= 1);
        lemma_joined_first(rest, ':');
        let n = ps[0].len() as int;
        assert forall|j: int| 0 <= j && j + 1 < s.len() implies !(#[trigger] s[j] == ':' && s[j + 1] == ':') by {
            if j < n {
                assert(s[j] == ps[0][j]);
            } else if j == n {
                assert(s[j + 1] == r[0]);
            } else {
                assert(s[j] == r[j - n - 1]);
                assert(s[j + 1] == r[j - n]);
            }
        }
    }
}

proof fn lemma_double_colon_absent(s: Seq<char>)
    requires
        forall|j: int| 0 <= j && j + 1 < s.len() ==> !(#[trigger] s[j] == ':' && s[j + 1] == ':'),
    ensures
        double_colon(s) is None,
    decreases s.len(),
{
    if s.len() >= 2 {
        let r = s.drop_first();
        assert forall|j: int| 0 <= j && j + 1 < r.len() implies !(#[trigger] r[j] == ':' && r[j + 1] == ':') by {
            assert(r[j] == s[j + 1] && r[j + 1] == s[j + 2]);
        }
        assert(!(s[0] == ':' && s[1] == ':'));
        lemma_double_colon_absent(r);
    }
}

/// Full-form IPv6 text round trip: eight groups of one to four hexadecimal
/// digits, in either case, separated by `':'`, read back as the address whose
/// 16-bit groups, most significant first, are the numbers they write.
pub proof fn law_ipv6_full_form_round_trip(gs: Seq<Seq<int>>, upper: bool)
    requires
        gs.len() == 8,
        valid_groups(gs),
    ensures
        parse_ip_text(joined(group_texts(gs, upper), ':')) == Some(IpAddress::V6(ipv6_number(gs) as u128)),
{
    let parts = group_texts(gs, upper);
    let text = joined(parts, ':');
    let nums = gs.map_values(|ds: Seq<int>| base16(ds) as nat);
    assert forall|i: int| 0 <= i < 8 implies ({
        &&& hex_group(#[trigger] parts[i]) == Some(nums[i])
        &&& free_of(parts[i], ':')
        &&& free_of(parts[i], '.')
        &&& parts[i].len() >= 1
        &&& 0 <= base16(gs[i]) < 0x1_0000
    }) by {
        assert(1 <= gs[i].len() <= 4);
        assert forall|j: int| 0 <= j < gs[i].len() implies 0 <= #[trigger] gs[i][j] <= 15 by {
        }
        lemma_group_text(gs[i], upper);
    }
    lemma_fields_of_joined(parts, ':');
    lemma_joined_no_double_colon(parts);
    lemma_double_colon_absent(text);
    let init = parts.drop_last();
    assert forall|i: int| 0 <= i < init.len() implies hex_group(#[trigger] init[i]) is Some by {
        assert(init[i] == parts[i]);
    }
    assert(init.map_values(|f: Seq<char>| hex_group(f)->0).push(nums[7]) =~= nums);
    assert(groups_of(parts, true) == Some(nums));
    assert(ipv6_groups(text) == Some(nums));
    lemma_joined_free(parts, ':', '.');
    lemma_fields_single(text, '.');
    assert(parse_ipv4_text(text) is None);
    assert(ipv6_value(nums) == ipv6_number(gs));
}

/// The number whose base-65536 digits, most significant first, are `g`.
pub open spec fn base65536(g: Seq<int>) -> int
    decreases g.len(),
{
    if g.len() == 0 {
        0
    } else {
        base65536(g.drop_last()) * 0x1_0000 + g.last()
    }
}

/// The numbers that the groups `gs` write.
pub open spec fn group_numbers(gs: Seq<Seq<int>>) -> Seq<int> {
    gs.map_values(|ds: Seq<int>| base16(ds))
}

proof fn lemma_group_texts(gs: Seq<Seq<int>>, upper: bool, allow_ipv4: bool)
    requires
        gs.len() >= 1,
        valid_groups(gs),
    ensures
        ({
            let parts = group_texts(gs, upper);
            let text = joined(parts, ':');
            &&& groups_of(parts, allow_ipv4) == Some(gs.map_values(|ds: Seq<int>| base16(ds) as nat))
            &&& fields(text, ':') == parts
            &&& forall|j: int| 0 <= j && j + 1 < text.len() ==> !(#[trigger] text[j] == ':' && text[j + 1] == ':')
            &&& free_of(text, '.')
            &&& text.len() >= 1
            &&& text.last() != ':'
        }),
{
    let parts = group_texts(gs, upper);
    let text = joined(parts, ':');
    let nums = gs.map_values(|ds: Seq<int>| base16(ds) as nat);
    let n = gs.len() as int;
    assert forall|i: int| 0 <= i < n implies ({
        &&& hex_group(#[trigger] parts[i]) == Some(nums[i])
        &&& free_of(parts[i], ':')
        &&& free_of(parts[i], '.')
        &&& parts[i].len() >= 1
    }) by {
        assert(1 <= gs[i].len() <= 4);
        assert forall|j: int| 0 <= j < gs[i].len() implies 0 <= #[trigger] gs[i][j] <= 15 by {
        }
        lemma_group_text(gs[i], upper);
    }
    lemma_fields_of_joined(parts, ':');
    lemma_joined_no_double_colon(parts);
    let init = parts.drop_last();
    assert forall|i: int| 0 <= i < init.len() implies hex_group(#[trigger] init[i]) is Some by {
        assert(init[i] == parts[i]);
    }
    assert(init.map_values(|f: Seq<char>| hex_group(f)->0).push(nums[n - 1]) =~= nums);
    assert(parts.last() == parts[n - 1]);
    lemma_joined_free(parts, ':', '.');
    lemma_joined_last(parts);
    assert(free_of(parts[n - 1], ':'));
}

proof fn lemma_joined_last(ps: Seq<Seq<char>>)
    requires
        ps.len() >= 1,
        forall|i: int| 0 <= i < ps.len() ==> (#[trigger] ps[i]).len() >= 1,
    ensures
        joined(ps, ':').len() >= 1,
        joined(ps, ':').last() == ps.last().last(),
    decreases ps.len(),
{
    assert(ps[0].len() >= 1);
    if ps.len() > 1 {
        let rest = ps.drop_first();
        assert forall|i: int| 0 <= i < rest.len() implies (#[trigger] rest[i]).len() >= 1 by {
            assert(rest[i] == ps[i + 1]);
        }
        lemma_joined_last(rest);
        assert(rest.last() == ps.last());
    }
}

proof fn lemma_double_colon_at(s: Seq<char>, k: int)
    requires
        0 <= k,
        k + 1 < s.len(),
        s[k] == ':' && s[k + 1] == ':',
        forall|j: int| 0 <= j < k ==> !(#[trigger] s[j] == ':' && s[j + 1] == ':'),
    ensures
        double_colon(s) == Some(k as nat),
    decreases k,
{
    if k > 0 {
        let r = s.drop_first();
        assert forall|j: int| 0 <= j < k - 1 implies !(#[trigger] r[j] == ':' && r[j + 1] == ':') by {
            assert(r[j] == s[j + 1] && r[j + 1] == s[j + 2]);
        }
        assert(r[k - 1] == s[k] && r[k] == s[k + 1]);
        assert(!(s[0] == ':' && s[1] == ':'));
        lemma_double_colon_at(r, k - 1);
    }
}

proof fn lemma_base65536_step(gi: Seq<int>, k: int)
    requires
        1 <= k <= gi.len(),
    ensures
        base65536(gi.take(k)) == base65536(gi.take(k - 1)) * 0x1_0000 + gi[k - 1],
{
    assert(gi.take(k).drop_last() =~= gi.take(k - 1));
    assert(gi.take(k).last() == gi[k - 1]);
}

proof fn lemma_ipv6_value_base(g: Seq<nat>, gi: Seq<int>)
    requires
        g.len() == 8,
        gi.len() == 8,
        forall|i: int| 0 <= i < 8 ==> g[i] == gi[i],
    ensures
        ipv6_value(g) == base65536(gi),
{
    assert(gi.take(0) =~= Seq::<int>::empty());
    assert(base65536(gi.take(0)) == 0);
    lemma_base65536_step(gi, 1);
    lemma_base65536_step(gi, 2);
    lemma_base65536_step(gi, 3);
    lemma_base65536_step(gi, 4);
    lemma_base65536_step(gi, 5);
    lemma_base65536_step(gi, 6);
    lemma_base65536_step(gi, 7);
    lemma_base65536_step(gi, 8);
    assert(gi.take(8) =~= gi);
    assert(g[0] == gi[0] && g[1] == gi[1] && g[2] == gi[2] && g[3] == gi[3] && g[4] == gi[4] && g[5] == gi[5]
        && g[6] == gi[6] && g[7] == gi[7]);
}

/// The groups that compressed text with groups `hs`, `"::"` and groups `ts`
/// stands for.
proof fn lemma_compressed_groups(hs: Seq<Seq<int>>, ts: Seq<Seq<int>>, upper: bool)
    requires
        valid_groups(hs),
        valid_groups(ts),
    ensures
        ({
            let text = joined(group_texts(hs, upper), ':') + seq![':', ':'] + joined(group_texts(ts, upper), ':');
            let hn = hs.map_values(|ds: Seq<int>| base16(ds) as nat);
            let tn = ts.map_values(|ds: Seq<int>| base16(ds) as nat);
            &&& ipv6_groups(text) == (if hs.len() + ts.len() <= 7 {
                Some(hn + Seq::new((8 - hn.len() - tn.len()) as nat, |i: int| 0nat) + tn)
            } else {
                None
            })
            &&& parse_ipv4_text(text) is None
        }),
{
    let a = joined(group_texts(hs, upper), ':');
    let b = joined(group_texts(ts, upper), ':');
    let text = a + seq![':', ':'] + b;
    let k = a.len() as int;
    let hn = hs.map_values(|ds: Seq<int>| base16(ds) as nat);
    let tn = ts.map_values(|ds: Seq<int>| base16(ds) as nat);
    if hs.len() > 0 {
        lemma_group_texts(hs, upper, false);
    } else {
        assert(a.len() == 0);
        assert(hn =~= Seq::<nat>::empty());
    }
    if ts.len() > 0 {
        lemma_group_texts(ts, upper, true);
    } else {
        assert(b.len() == 0);
        assert(tn =~= Seq::<nat>::empty());
    }
    assert forall|j: int| 0 <= j < k implies !(#[trigger] text[j] == ':' && text[j + 1] == ':') by {
        assert(text[j] == a[j]);
        if j + 1 < k {
            assert(text[j + 1] == a[j + 1]);
        } else {
            assert(a.last() == a[j]);
        }
    }
    assert(text[k] == ':' && text[k + 1] == ':');
    lemma_double_colon_at(text, k);
    assert(text.take(k) =~= a);
    assert(text.skip(k + 2) =~= b);
    assert forall|i: int| 0 <= i < text.len() implies text[i] != '.' by {
        if i < k {
            assert(text[i] == a[i]);
        } else if i >= k + 2 {
            assert(text[i] == b[i - k - 2]);
        }
    }
    lemma_fields_single(text, '.');
}

proof fn lemma_valid_group(gs: Seq<Seq<int>>, i: int, upper: bool)
    requires
        valid_groups(gs),
        0 <= i < gs.len(),
    ensures
        0 <= base16(gs[i]) < 0x1_0000,
{
    assert(1 <= gs[i].len() <= 4);
    assert forall|j: int| 0 <= j < gs[i].len() implies 0 <= #[trigger] gs[i][j] <= 15 by {
    }
    lemma_group_text(gs[i], upper);
}

/// Compressed IPv6 text round trip: groups `hs`, then `"::"`, then groups
/// `ts`, with at most seven groups in all (either side may be empty), read
/// back as the address whose 16-bit groups are those of `hs`, then as many
/// zero groups as make eight, then those of `ts`.
pub proof fn law_ipv6_compressed_form_round_trip(hs: Seq<Seq<int>>, ts: Seq<Seq<int>>, upper: bool)
    requires
        hs.len() + ts.len() <= 7,
        valid_groups(hs),
        valid_groups(ts),
    ensures
        parse_ip_text(joined(group_texts(hs, upper), ':') + seq![':', ':'] + joined(group_texts(ts, upper), ':'))
            == Some(IpAddress::V6(base65536(group_numbers(hs) + Seq::new((8 - hs.len() - ts.len()) as nat, |i: int| 0int)
            + group_numbers(ts)) as u128)),
{
    lemma_compressed_groups(hs, ts, upper);
    let hn = hs.map_values(|ds: Seq<int>| base16(ds) as nat);
    let tn = ts.map_values(|ds: Seq<int>| base16(ds) as nat);
    let g = hn + Seq::new((8 - hn.len() - tn.len()) as nat, |i: int| 0nat) + tn;
    let gi = group_numbers(hs) + Seq::new((8 - hs.len() - ts.len()) as nat, |i: int| 0int) + group_numbers(ts);
    assert forall|i: int| 0 <= i < 8 implies g[i] == gi[i] by {
        if i < hs.len() {
            lemma_valid_group(hs, i, upper);
            assert(g[i] == hn[i]);
            assert(gi[i] == group_numbers(hs)[i]);
        } else if i >= 8 - ts.len() {
            lemma_valid_group(ts, i - (8 - ts.len()), upper);
            assert(g[i] == tn[i - (8 - ts.len())]);
            assert(gi[i] == group_numbers(ts)[i - (8 - ts.len())]);
        } else {
            let z = Seq::new((8 - hn.len() - tn.len()) as nat, |i: int| 0nat);
            let zi = Seq::new((8 - hs.len() - ts.len()) as nat, |i: int| 0int);
            assert((hn + z)[i] == z[i - hn.len()]);
            assert((group_numbers(hs) + zi)[i] == zi[i - hs.len()]);
            assert(g[i] == (hn + z)[i]);
            assert(gi[i] == (group_numbers(hs) + zi)[i]);
        }
    }
    lemma_ipv6_value_base(g, gi);
}

/// Full-form text with other than eight groups is not an IP address.
pub proof fn law_ipv6_full_form_needs_eight_groups(gs: Seq<Seq<int>>, upper: bool)
    requires
        gs.len() >= 1,
        gs.len() != 8,
        valid_groups(gs),
    ensures
        parse_ip_text(joined(group_texts(gs, upper), ':')) is None,
{
    let text = joined(group_texts(gs, upper), ':');
    lemma_group_texts(gs, upper, true);
    lemma_double_colon_absent(text);
    lemma_fields_single(text, '.');
}

/// Compressed text with eight groups or more besides the `"::"` is not an IP
/// address: the `"::"` must stand for at least one zero group.
pub proof fn law_ipv6_compressed_form_needs_room(hs: Seq<Seq<int>>, ts: Seq<Seq<int>>, upper: bool)
    requires
        hs.len() + ts.len() >= 8,
        valid_groups(hs),
        valid_groups(ts),
    ensures
        parse_ip_text(joined(group_texts(hs, upper), ':') + seq![':', ':'] + joined(group_texts(ts, upper), ':'))
            is None,
{
    lemma_compressed_groups(hs, ts, upper);
}

proof fn lemma_hex_text_free(ds: Seq<int>, upper: bool)
    requires
        forall|j: int| 0 <= j < ds.len() ==> 0 <= #[trigger] ds[j] <= 15,
    ensures
        free_of(hex_text(ds, upper), ':'),
        free_of(hex_text(ds, upper), '.'),
        hex_text(ds, upper).len() == ds.len(),
{
    let t = hex_text(ds, upper);
    assert forall|i: int| 0 <= i < t.len() implies t[i] != ':' && t[i] != '.' by {
        lemma_hex_char(ds[i], upper);
    }
}

/// A group of more than four hexadecimal digits, anywhere among eight, makes
/// the text not an IP address.
pub proof fn law_ipv6_rejects_long_group(gs: Seq<Seq<int>>, upper: bool, k: int)
    requires
        gs.len() == 8,
        0 <= k < 8,
        gs[k].len() > 4,
        forall|i: int| 0 <= i < 8 ==> (#[trigger] gs[i]).len() >= 1,
        forall|i: int, j: int| 0 <= i < 8 && 0 <= j < gs[i].len() ==> 0 <= #[trigger] gs[i][j] <= 15,
    ensures
        parse_ip_text(joined(group_texts(gs, upper), ':')) is None,
{
    let parts = group_texts(gs, upper);
    let text = joined(parts, ':');
    assert forall|i: int| 0 <= i < 8 implies free_of(#[trigger] parts[i], ':') && free_of(parts[i], '.')
        && parts[i].len() >= 1 by {
        assert forall|j: int| 0 <= j < gs[i].len() implies 0 <= #[trigger] gs[i][j] <= 15 by {
        }
        lemma_hex_text_free(gs[i], upper);
    }
    lemma_fields_of_joined(parts, ':');
    lemma_joined_no_double_colon(parts);
    lemma_double_colon_absent(text);
    assert(hex_group(parts[k]) is None);
    if k == 7 {
        lemma_fields_single(parts[7], '.');
        assert(parse_ipv4_text(parts[7]) is None);
        assert(parts.last() == parts[7]);
    } else {
        assert(parts.drop_last()[k] == parts[k]);
    }
    assert(groups_of(parts, true) is None);
    lemma_joined_free(parts, ':', '.');
    lemma_fields_single(text, '.');
}

proof fn lemma_ipv4_halves(a: int, b: int, c: int, d: int)
    requires
        0 <= a <= 255,
        0 <= b <= 255,
        0 <= c <= 255,
        0 <= d <= 255,
    ensures
        ({
            let v = (a * 0x100_0000 + b * 0x1_0000 + c * 0x100 + d) as u32;
            &&& v as int == a * 0x100_0000 + b * 0x1_0000 + c * 0x100 + d
            &&& v / 0x1_0000 == a * 0x100 + b
            &&& v % 0x1_0000 == c * 0x100 + d
        }),
{
    let v = a * 0x100_0000 + b * 0x1_0000 + c * 0x100 + d;
    vstd::arithmetic::div_mod::lemma_fundamental_div_mod_converse(v, 0x1_0000, a * 0x100 + b, c * 0x100 + d);
}

/// The text of a dotted quad is not one 16-bit group, and holds no `':'`.
proof fn lemma_dotted_quad_shape(a: int, b: int, c: int, d: int)
    requires
        0 <= a <= 255,
        0 <= b <= 255,
        0 <= c <= 255,
        0 <= d <= 255,
    ensures
        dotted_quad(a, b, c, d).len() >= 7,
        free_of(dotted_quad(a, b, c, d), ':'),
        fields(dotted_quad(a, b, c, d), ':') == seq![dotted_quad(a, b, c, d)],
        hex_group(dotted_quad(a, b, c, d)) is None,
{
    lemma_decimal_text(a);
    lemma_decimal_text(b);
    lemma_decimal_text(c);
    lemma_decimal_text(d);
    let q = dotted_quad(a, b, c, d);
    assert forall|i: int| 0 <= i < q.len() implies q[i] != ':' by {
        lemma_digits_not_colon(decimal_text(a));
        lemma_digits_not_colon(decimal_text(b));
        lemma_digits_not_colon(decimal_text(c));
        lemma_digits_not_colon(decimal_text(d));
        let (ta, tb, tc, td) = (decimal_text(a), decimal_text(b), decimal_text(c), decimal_text(d));
        let n1 = ta.len() as int;
        let n2 = n1 + 1 + tb.len();
        let n3 = n2 + 1 + tc.len();
        if i < n1 {
            assert(q[i] == ta[i]);
        } else if n1 < i < n2 {
            assert(q[i] == tb[i - n1 - 1]);
        } else if n2 < i < n3 {
            assert(q[i] == tc[i - n2 - 1]);
        } else if i > n3 {
            assert(q[i] == td[i - n3 - 1]);
        }
    }
    lemma_fields_single(q, ':');
}

proof fn lemma_digits_not_colon(t: Seq<char>)
    requires
        forall|i: int| 0 <= i < t.len() ==> is_decimal_digit(#[trigger] t[i]),
    ensures
        free_of(t, ':'),
{
    assert forall|i: int| 0 <= i < t.len() implies t[i] != ':' by {
        assert(is_decimal_digit(t[i]));
    }
}

/// The groups that text with groups `hs`, `"::"` and a dotted quad stands for.
proof fn lemma_embedded_groups(hs: Seq<Seq<int>>, upper: bool, a: int, b: int, c: int, d: int)
    requires
        hs.len() <= 5,
        valid_groups(hs),
        0 <= a <= 255,
        0 <= b <= 255,
        0 <= c <= 255,
        0 <= d <= 255,
    ensures
        ({
            let text = joined(group_texts(hs, upper), ':') + seq![':', ':'] + dotted_quad(a, b, c, d);
            let hn = hs.map_values(|ds: Seq<int>| base16(ds) as nat);
            let tn = seq![(a * 0x100 + b) as nat, (c * 0x100 + d) as nat];
            ipv6_groups(text) == Some(hn + Seq::new((8 - hn.len() - 2) as nat, |i: int| 0nat) + tn)
        }),
{
    let aa = joined(group_texts(hs, upper), ':');
    let q = dotted_quad(a, b, c, d);
    let text = aa + seq![':', ':'] + q;
    let k = aa.len() as int;
    let hn = hs.map_values(|ds: Seq<int>| base16(ds) as nat);
    if hs.len() > 0 {
        lemma_group_texts(hs, upper, false);
    } else {
        assert(aa.len() == 0);
        assert(hn =~= Seq::<nat>::empty());
    }
    lemma_dotted_quad_shape(a, b, c, d);
    law_dotted_quad_round_trip(a, b, c, d);
    lemma_ipv4_halves(a, b, c, d);
    assert forall|j: int| 0 <= j < k implies !(#[trigger] text[j] == ':' && text[j + 1] == ':') by {
        assert(text[j] == aa[j]);
        if j + 1 < k {
            assert(text[j + 1] == aa[j + 1]);
        } else {
            assert(aa.last() == aa[j]);
        }
    }
    assert(text[k] == ':' && text[k + 1] == ':');
    lemma_double_colon_at(text, k);
    assert(text.take(k) =~= aa);
    assert(text.skip(k + 2) =~= q);
    let parts = seq![q];
    assert(parts.drop_last() =~= Seq::<Seq<char>>::empty());
    assert(parts.last() == q);
    let v = (a * 0x100_0000 + b * 0x1_0000 + c * 0x100 + d) as u32;
    assert(ipv4_groups(IpAddress::V4(v)) =~= seq![(a * 0x100 + b) as nat, (c * 0x100 + d) as nat]);
    assert(Seq::<Seq<char>>::empty().map_values(|f: Seq<char>| hex_group(f)->0) + ipv4_groups(IpAddress::V4(v))
        =~= seq![(a * 0x100 + b) as nat, (c * 0x100 + d) as nat]);
}

proof fn lemma_field_with_colon_not_ipv4(fs: Seq<Seq<char>>, i: int)
    requires
        fs.len() == 4,
        forall|k: int| 0 <= k < 4 ==> free_of(#[trigger] fs[k], '.'),
        0 <= i < fs[0].len(),
        fs[0][i] == ':',
    ensures
        parse_ipv4_text(joined(fs, '.')) is None,
{
    lemma_fields_of_joined(fs, '.');
    assert(!is_decimal_digit(fs[0][i]));
    assert(decimal_octet(fs[0]) is None);
}

proof fn lemma_colon_text_not_ipv4(aa: Seq<char>, ta: Seq<char>, tb: Seq<char>, tc: Seq<char>, td: Seq<char>)
    requires
        free_of(aa, '.'),
        free_of(ta, '.'),
        free_of(tb, '.'),
        free_of(tc, '.'),
        free_of(td, '.'),
    ensures
        parse_ipv4_text(aa + seq![':', ':'] + (ta + seq!['.'] + tb + seq!['.'] + tc + seq!['.'] + td)) is None,
{
    let first = aa + seq![':', ':'] + ta;
    assert forall|i: int| 0 <= i < first.len() implies first[i] != '.' by {
        if i < aa.len() {
            assert(first[i] == aa[i]);
        } else if i >= aa.len() + 2 {
            assert(first[i] == ta[i - aa.len() - 2]);
        }
    }
    let fs = seq![first, tb, tc, td];
    lemma_joined_four(fs, '.');
    assert(aa + seq![':', ':'] + (ta + seq!['.'] + tb + seq!['.'] + tc + seq!['.'] + td) =~= joined(fs, '.'));
    assert(first[aa.len() as int] == ':');
    lemma_field_with_colon_not_ipv4(fs, aa.len() as int);
}

/// Text with groups, `"::"` and a dotted quad is not an IPv4 address.
proof fn lemma_embedded_not_ipv4(hs: Seq<Seq<int>>, upper: bool, a: int, b: int, c: int, d: int)
    requires
        valid_groups(hs),
        0 <= a <= 255,
        0 <= b <= 255,
        0 <= c <= 255,
        0 <= d <= 255,
    ensures
        parse_ipv4_text(joined(group_texts(hs, upper), ':') + seq![':', ':'] + dotted_quad(a, b, c, d)) is None,
{
    let aa = joined(group_texts(hs, upper), ':');
    assert(free_of(aa, '.')) by {
        if hs.len() > 0 {
            lemma_group_texts(hs, upper, false);
        }
    }
    assert(free_of(decimal_text(a), '.')) by { lemma_decimal_text(a); }
    assert(free_of(decimal_text(b), '.')) by { lemma_decimal_text(b); }
    assert(free_of(decimal_text(c), '.')) by { lemma_decimal_text(c); }
    assert(free_of(decimal_text(d), '.')) by { lemma_decimal_text(d); }
    lemma_colon_text_not_ipv4(aa, decimal_text(a), decimal_text(b), decimal_text(c), decimal_text(d));
}

/// IPv6 text ending in an embedded IPv4 address: groups `hs`, `"::"` and the
/// dotted quad of `a.b.c.d` read back as the address whose groups are those
/// of `hs`, zero groups, then `a * 256 + b` and `c * 256 + d`.
pub proof fn law_ipv6_embedded_ipv4(hs: Seq<Seq<int>>, upper: bool, a: int, b: int, c: int, d: int)
    requires
        hs.len() <= 5,
        valid_groups(hs),
        0 <= a <= 255,
        0 <= b <= 255,
        0 <= c <= 255,
        0 <= d <= 255,
    ensures
        parse_ip_text(joined(group_texts(hs, upper), ':') + seq![':', ':'] + dotted_quad(a, b, c, d)) == Some(
            IpAddress::V6(base65536(group_numbers(hs) + Seq::new((6 - hs.len()) as nat, |i: int| 0int) + seq![
                a * 0x100 + b,
                c * 0x100 + d,
            ]) as u128),
        ),
{
    lemma_embedded_groups(hs, upper, a, b, c, d);
    lemma_embedded_not_ipv4(hs, upper, a, b, c, d);
    let hn = hs.map_values(|ds: Seq<int>| base16(ds) as nat);
    let tn = seq![(a * 0x100 + b) as nat, (c * 0x100 + d) as nat];
    let z = Seq::new((8 - hn.len() - 2) as nat, |i: int| 0nat);
    let g = hn + z + tn;
    let zi = Seq::new((6 - hs.len()) as nat, |i: int| 0int);
    let ti = seq![a * 0x100 + b, c * 0x100 + d];
    let gi = group_numbers(hs) + zi + ti;
    assert forall|i: int| 0 <= i < 8 implies g[i] == gi[i] by {
        if i < hs.len() {
            lemma_valid_group(hs, i, upper);
            assert(g[i] == hn[i]);
            assert(gi[i] == group_numbers(hs)[i]);
        } else if i >= 6 {
            assert(g[i] == tn[i - 6]);
            assert(gi[i] == ti[i - 6]);
        } else {
            assert((hn + z)[i] == z[i - hn.len()]);
            assert((group_numbers(hs) + zi)[i] == zi[i - hs.len()]);
            assert(g[i] == (hn + z)[i]);
            assert(gi[i] == (group_numbers(hs) + zi)[i]);
        }
    }
    lemma_ipv6_value_base(g, gi);
}

/// `c` is `0`-`9`, `a`-`f` or `A`-`F`.
pub open spec fn is_hex_char(c: char) -> bool {
    let u = c as u32;
    (0x30 <= u <= 0x39) || (0x41 <= u <= 0x46) || (0x61 <= u <= 0x66)
}

proof fn lemma_hex_digits_invalid(digits: Seq<char>, i: int)
    requires
        0 <= i < digits.len(),
        !is_hex_char(digits[i]),
    ensures
        hex_digits_value(digits) is None,
{
    if hex_digits_value(digits) is Some {
        lemma_hex_prefix(digits, i + 1);
        let t = digits.take(i + 1);
        assert(t.last() == digits[i]);
        assert(crate::text::hex_digit_value(digits[i]) is None);
    }
}

/// Text with a character other than a hexadecimal digit, past an optional
/// leading `'+'`, is not a hexadecimal number; neither is empty text, nor
/// `"+"` alone.
pub proof fn law_hex_rejects_other_characters(s: Seq<char>, i: int)
    requires
        0 <= i < s.len(),
        !is_hex_char(s[i]),
        !(i == 0 && s[0] == '+'),
    ensures
        parse_hex_u32(s) is None,
        parse_hex_u32(Seq::empty()) is None,
        parse_hex_u32(seq!['+']) is None,
{
    if s[0] == '+' {
        let digits = s.drop_first();
        assert(digits[i - 1] == s[i]);
        lemma_hex_digits_invalid(digits, i - 1);
    } else {
        lemma_hex_digits_invalid(s, i);
    }
    assert(seq!['+'].drop_first() =~= Seq::<char>::empty());
}

proof fn lemma_base16_lower_bound(ds: Seq<int>)
    requires
        ds.len() >= 1,
        forall|i: int| 0 <= i < ds.len() ==> 0 <= #[trigger] ds[i] <= 15,
    ensures
        base16(ds) >= ds[0] * pow16((ds.len() - 1) as nat),
    decreases ds.len(),
{
    if ds.len() > 1 {
        let init = ds.drop_last();
        assert(init[0] == ds[0]);
        lemma_base16_lower_bound(init);
        lemma_hex_text_value(init, false);
        let p = pow16((init.len() - 1) as nat);
        assert(pow16((ds.len() - 1) as nat) == 16 * p);
        assert(base16(ds) == base16(init) * 16 + ds.last());
        assert(ds.last() >= 0);
        assert(base16(init) * 16 >= ds[0] * p * 16) by (nonlinear_arith)
            requires
                base16(init) >= ds[0] * p,
        ;
        assert(ds[0] * p * 16 == ds[0] * (16 * p)) by (nonlinear_arith);
        assert(base16(ds) >= ds[0] * pow16((ds.len() - 1) as nat));
    } else {
        assert(ds.drop_last() =~= Seq::<int>::empty());
        assert(base16(ds.drop_last()) == 0);
        assert(ds.last() == ds[0]);
        assert(pow16(0) == 1);
        assert(ds[0] * 1 == ds[0]);
    }
}

proof fn lemma_pow16_grows(n: nat)
    requires
        n >= 8,
    ensures
        pow16(n) >= 0x1_0000_0000,
    decreases n,
{
    if n > 8 {
        lemma_pow16_grows((n - 1) as nat);
    } else {
        lemma_pow16_bound(8);
        assert(pow16(0) == 1);
        assert(pow16(1) == 0x10);
        assert(pow16(2) == 0x100);
        assert(pow16(3) == 0x1000);
        assert(pow16(4) == 0x1_0000);
        assert(pow16(5) == 0x10_0000);
        assert(pow16(6) == 0x100_0000);
        assert(pow16(7) == 0x1000_0000);
        assert(pow16(8) == 0x1_0000_0000);
    }
}

/// Nine or more hexadecimal digits, the first of them not zero, write a
/// number too large for a `u32`: not read.
pub proof fn law_hex_rejects_overflow(ds: Seq<int>, upper: bool)
    requires
        ds.len() >= 9,
        forall|i: int| 0 <= i < ds.len() ==> 0 <= #[trigger] ds[i] <= 15,
        ds[0] >= 1,
    ensures
        parse_hex_u32(hex_text(ds, upper)) is None,
{
    lemma_hex_text_value(ds, upper);
    lemma_base16_lower_bound(ds);
    lemma_pow16_grows((ds.len() - 1) as nat);
    let p = pow16((ds.len() - 1) as nat);
    assert(ds[0] * p >= p) by (nonlinear_arith)
        requires
            ds[0] >= 1,
            p >= 0,
    ;
    let t = hex_text(ds, upper);
    assert(t[0] == hex_char(ds[0], upper));
    if ds[0] <= 9 {
        lemma_digit_char(ds[0]);
    }
}

} // verus!
