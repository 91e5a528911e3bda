//! Finding the default gateway and the interface of an address in what the
//! operating system reports.

use vstd::prelude::*;
use crate::ip::IpAddress;
use crate::text::{
    contains_text, contains_text_in, hex_digit, hex_digits_value, lemma_hex_prefix, lines, parse_hex,
    parse_hex_u32, split_lines, split_whitespace, starts_with, starts_with_text, trim, trim_text, views,
    words,
};

verus! {

/// The IPv4 address whose octets, in order, are the bytes of `value` from
/// least to most significant: how `/proc/net/route` writes addresses.
pub open spec fn address_from_le(value: u32) -> IpAddress {
    IpAddress::V4(
        ((value % 256) * 0x100_0000 + ((value / 0x100) % 256) * 0x1_0000 + ((value / 0x1_0000) % 256)
            * 0x100 + value / 0x100_0000) as u32,
    )
}

/// The destination field of a default route in `/proc/net/route`.
pub open spec fn default_destination() -> Seq<char> {
    seq!['0', '0', '0', '0', '0', '0', '0', '0']
}

/// The gateway of a line of `/proc/net/route`, if the line has at least eight
/// fields, destination `00000000`, and a gateway field in hexadecimal.
pub open spec fn proc_route_line_gateway(line: Seq<char>) -> Option<IpAddress> {
    let fields = words(line);
    if fields.len() >= 8 && fields[1] == default_destination() {
        match parse_hex_u32(fields[2]) {
            Some(g) => Some(address_from_le(g)),
            None => None,
        }
    } else {
        None
    }
}

/// The gateway of the first of `ls` that has one.
pub open spec fn first_proc_route_gateway(ls: Seq<Seq<char>>) -> Option<IpAddress>
    decreases ls.len(),
{
    if ls.len() == 0 {
        None
    } else {
        match proc_route_line_gateway(ls[0]) {
            Some(g) => Some(g),
            None => first_proc_route_gateway(ls.drop_first()),
        }
    }
}

/// The default gateway that the contents of `/proc/net/route` give: that of
/// the first line after the header that has one.
pub open spec fn proc_net_route_gateway(content: Seq<char>) -> Option<IpAddress> {
    let ls = lines(content);
    if ls.len() == 0 {
        None
    } else {
        first_proc_route_gateway(ls.drop_first())
    }
}

/// The text `0.0.0.0`.
pub open spec fn unspecified_text() -> Seq<char> {
    seq!['0', '.', '0', '.', '0', '.', '0']
}

/// The gateway candidates in lines `ls` of `route print` output: the third
/// field of each line that mentions `0.0.0.0` and has at least three fields.
pub open spec fn route_print_candidates(ls: Seq<Seq<char>>) -> Seq<Seq<char>>
    decreases ls.len(),
{
    if ls.len() == 0 {
        Seq::empty()
    } else {
        let fields = words(ls[0]);
        let here = if contains_text(ls[0], unspecified_text()) && fields.len() >= 3 {
            seq![fields[2]]
        } else {
            Seq::empty()
        };
        here + route_print_candidates(ls.drop_first())
    }
}

/// The text `default`.
pub open spec fn default_text() -> Seq<char> {
    seq!['d', 'e', 'f', 'a', 'u', 'l', 't']
}

/// The gateway candidates in lines `ls` of `netstat -nr` output: the second
/// field of each line that, trimmed, starts with `default` and has at least
/// two fields.
pub open spec fn netstat_candidates(ls: Seq<Seq<char>>) -> Seq<Seq<char>>
    decreases ls.len(),
{
    if ls.len() == 0 {
        Seq::empty()
    } else {
        let line = trim(ls[0]);
        let fields = words(line);
        let here = if starts_with(line, default_text()) && fields.len() >= 2 {
            seq![fields[1]]
        } else {
            Seq::empty()
        };
        here + netstat_candidates(ls.drop_first())
    }
}

/// The IPv4 address that `/proc/net/route` writes as `value`.
pub fn address_from_le_u32(value: u32) -> (r: IpAddress)
    ensures
        r == address_from_le(value),
{
    let b0 = value % 256;
    let b1 = (value / 0x100) % 256;
    let b2 = (value / 0x1_0000) % 256;
    let b3 = value / 0x100_0000;
    assert(b3 <= 255) by (nonlinear_arith)
        requires
            b3 == value / 0x100_0000,
            value <= 0xFFFF_FFFF,
    ;
    assert(b0 * 0x100_0000 + b1 * 0x1_0000 + b2 * 0x100 + b3 <= 0xFFFF_FFFF) by (nonlinear_arith)
        requires
            b0 <= 255,
            b1 <= 255,
            b2 <= 255,
            b3 <= 255,
    ;
    IpAddress::V4(b0 * 0x100_0000 + b1 * 0x1_0000 + b2 * 0x100 + b3)
}

fn is_default_destination(field: &Vec<char>) -> (r: bool)
    ensures
        r == (field@ == default_destination()),
{
    if field.len() != 8 {
        return false;
    }
    let mut i: usize = 0;
    while i < 8
        invariant
            field.len() == 8,
            i <= 8,
            forall|j: int| 0 <= j < i ==> field@[j] == '0',
        decreases 8 - i,
    {
        if field[i] != '0' {
            assert(default_destination()[i as int] == '0');
            return false;
        }
        i = i + 1;
    }
    assert(field@ =~= default_destination());
    true
}

/// The gateway of one line of `/proc/net/route`, if it is a default route.
fn proc_route_gateway_of_line(line: &Vec<char>) -> (r: Option<IpAddress>)
    ensures
        r == proc_route_line_gateway(line@),
{
    let fields = split_whitespace(line);
    if fields.len() >= 8 && is_default_destination(&fields[1]) {
        assert(views(fields@)[1] == fields@[1]@);
        assert(views(fields@)[2] == fields@[2]@);
        match parse_hex(&fields[2]) {
            Some(g) => Some(address_from_le_u32(g)),
            None => None,
        }
    } else {
        proof {
            if fields.len() >= 8 {
                assert(views(fields@)[1] == fields@[1]@);
            }
        }
        None
    }
}

/// The default gateway in the contents of `/proc/net/route`: that of the
/// first line after the header whose destination is `00000000` and whose
/// gateway field is hexadecimal.
pub fn parse_proc_net_route(content: &Vec<char>) -> (r: Option<IpAddress>)
    ensures
        r == proc_net_route_gateway(content@),
{
    let ls = split_lines(content);
    if ls.len() == 0 {
        return None;
    }
    let ghost all = views(ls@);
    let mut i: usize = 1;
    assert(all.skip(1) =~= all.drop_first());
    while i < ls.len()
        invariant
            1 <= i <= ls.len(),
            all == views(ls@),
            all == lines(content@),
            first_proc_route_gateway(all.skip(1)) == first_proc_route_gateway(all.skip(i as int)),
        decreases ls.len() - i,
    {
        let g = proc_route_gateway_of_line(&ls[i]);
        assert(all.skip(i as int)[0] == ls@[i as int]@);
        assert(all.skip(i as int).drop_first() =~= all.skip(i + 1));
        if g.is_some() {
            return g;
        }
        i = i + 1;
    }
    assert(all.skip(i as int).len() == 0);
    None
}

/// The gateway candidates in `route print 0.0.0.0` output: the third field of
/// each line that mentions `0.0.0.0` and has at least three fields, in order.
pub fn route_print_gateway_candidates(output: &Vec<char>) -> (r: Vec<Vec<char>>)
    ensures
        views(r@) == route_print_candidates(lines(output@)),
{
    let ls = split_lines(output);
    let ghost all = views(ls@);
    let unspecified = vec!['0', '.', '0', '.', '0', '.', '0'];
    assert(unspecified@ =~= unspecified_text());
    let mut r: Vec<Vec<char>> = Vec::new();
    let mut i: usize = 0;
    assert(all.skip(0) =~= all);
    assert(views(r@) =~= Seq::<Seq<char>>::empty());
    while i < ls.len()
        invariant
            i <= ls.len(),
            all == views(ls@),
            all == lines(output@),
            unspecified@ == unspecified_text(),
            views(r@) + route_print_candidates(all.skip(i as int)) == route_print_candidates(all),
        decreases ls.len() - i,
    {
        let line = &ls[i];
        let fields = split_whitespace(line);
        let ghost rest = all.skip(i as int);
        assert(rest[0] == line@);
        assert(rest.drop_first() =~= all.skip(i + 1));
        if contains_text_in(line, &unspecified) && fields.len() >= 3 {
            let mut candidate: Vec<char> = Vec::new();
            let mut k: usize = 0;
            while k < fields[2].len()
                invariant
                    fields.len() >= 3,
                    k <= fields@[2]@.len(),
                    candidate@ == fields@[2]@.take(k as int),
                decreases fields@[2]@.len() - k,
            {
                candidate.push(fields[2][k]);
                k = k + 1;
                assert(candidate@ =~= fields@[2]@.take(k as int));
            }
            proof {
                assert(candidate@ =~= fields@[2]@);
                assert(views(fields@)[2] == fields@[2]@);
                assert(views(r@.push(candidate)) =~= views(r@) + seq![candidate@]);
                let later = route_print_candidates(all.skip(i + 1));
                assert(views(r@) + seq![candidate@] + later =~= views(r@) + (seq![candidate@] + later));
            }
            r.push(candidate);
        } else {
            proof {
                let later = route_print_candidates(all.skip(i + 1));
                assert(Seq::<Seq<char>>::empty() + later =~= later);
            }
        }
        i = i + 1;
    }
    assert(all.skip(i as int).len() == 0);
    assert(views(r@) + Seq::<Seq<char>>::empty() =~= views(r@));
    r
}

/// The gateway candidates in `netstat -nr` output: the second field of each
/// line that, trimmed, starts with `default` and has at least two fields, in
/// order.
pub fn netstat_gateway_candidates(output: &Vec<char>) -> (r: Vec<Vec<char>>)
    ensures
        views(r@) == netstat_candidates(lines(output@)),
{
    let ls = split_lines(output);
    let ghost all = views(ls@);
    let keyword = vec!['d', 'e', 'f', 'a', 'u', 'l', 't'];
    assert(keyword@ =~= default_text());
    let mut r: Vec<Vec<char>> = Vec::new();
    let mut i: usize = 0;
    assert(all.skip(0) =~= all);
    assert(views(r@) =~= Seq::<Seq<char>>::empty());
    while i < ls.len()
        invariant
            i <= ls.len(),
            all == views(ls@),
            all == lines(output@),
            keyword@ == default_text(),
            views(r@) + netstat_candidates(all.skip(i as int)) == netstat_candidates(all),
        decreases ls.len() - i,
    {
        let line = trim_text(&ls[i]);
        let fields = split_whitespace(&line);
        let ghost rest = all.skip(i as int);
        assert(rest[0] == ls@[i as int]@);
        assert(rest.drop_first() =~= all.skip(i + 1));
        if starts_with_text(&line, &keyword) && fields.len() >= 2 {
            let mut candidate: Vec<char> = Vec::new();
            let mut k: usize = 0;
            while k < fields[1].len()
                invariant
                    fields.len() >= 2,
                    k <= fields@[1]@.len(),
                    candidate@ == fields@[1]@.take(k as int),
                decreases fields@[1]@.len() - k,
            {
                candidate.push(fields[1][k]);
                k = k + 1;
                assert(candidate@ =~= fields@[1]@.take(k as int));
            }
            proof {
                assert(candidate@ =~= fields@[1]@);
                assert(views(fields@)[1] == fields@[1]@);
                assert(views(r@.push(candidate)) =~= views(r@) + seq![candidate@]);
                let later = netstat_candidates(all.skip(i + 1));
                assert(views(r@) + seq![candidate@] + later =~= views(r@) + (seq![candidate@] + later));
            }
            r.push(candidate);
        } else {
            proof {
                let later = netstat_candidates(all.skip(i + 1));
                assert(Seq::<Seq<char>>::empty() + later =~= later);
            }
        }
        i = i + 1;
    }
    assert(all.skip(i as int).len() == 0);
    assert(views(r@) + Seq::<Seq<char>>::empty() =~= views(r@));
    r
}

/// Length of the field that `s` starts with: up to the first `sep`, or all of `s`.
pub open spec fn field_len(s: Seq<char>, sep: char) -> nat
    decreases s.len(),
{
    if s.len() == 0 || s[0] == sep {
        0
    } else {
        1 + field_len(s.drop_first(), sep)
    }
}

/// The fields of `s` between separators `sep`, as `str::split(sep)` gives
/// them (empty fields included).
pub open spec fn fields(s: Seq<char>, sep: char) -> Seq<Seq<char>>
    decreases s.len(),
{
    let n = field_len(s, sep);
    if n >= s.len() {
        seq![s]
    } else {
        seq![s.take(n as int)] + fields(s.skip(n + 1 as int), sep)
    }
}

/// `c` is an ASCII decimal digit.
pub open spec fn is_decimal_digit(c: char) -> bool {
    0x30 <= (c as u32) <= 0x39
}

/// Value of a string of decimal digits, most significant first.
pub open spec fn decimal_value(digits: Seq<char>) -> nat
    decreases digits.len(),
{
    if digits.len() == 0 {
        0
    } else {
        decimal_value(digits.drop_last()) * 10 + ((digits.last() as u32) - 0x30) as nat
    }
}

/// A field of a dotted-quad IPv4 address as `Ipv4Addr::from_str` accepts it:
/// one to three decimal digits, no leading zero unless the field is `0`, and a
/// value of at most 255.
pub open spec fn decimal_octet(field: Seq<char>) -> Option<nat> {
    if 1 <= field.len() <= 3 && (forall|i: int| 0 <= i < field.len() ==> is_decimal_digit(#[trigger] field[i]))
        && !(field.len() > 1 && field[0] == '0') && decimal_value(field) <= 255 {
        Some(decimal_value(field))
    } else {
        None
    }
}

/// The IPv4 address that `text` writes in dotted-quad form, as
/// `Ipv4Addr::from_str` reads it.
pub open spec fn parse_ipv4_text(text: Seq<char>) -> Option<IpAddress> {
    let f = fields(text, '.');
    if f.len() == 4 && decimal_octet(f[0]) is Some && decimal_octet(f[1]) is Some && decimal_octet(f[2]) is Some
        && decimal_octet(f[3]) is Some {
        Some(
            IpAddress::V4(
                (decimal_octet(f[0])->0 * 0x100_0000 + decimal_octet(f[1])->0 * 0x1_0000 + decimal_octet(f[2])->0
                    * 0x100 + decimal_octet(f[3])->0) as u32,
            ),
        )
    } else {
        None
    }
}

/// The first of `candidates` that is an IPv4 address, read as one.
pub open spec fn first_ipv4(candidates: Seq<Seq<char>>) -> Option<IpAddress>
    decreases candidates.len(),
{
    if candidates.len() == 0 {
        None
    } else {
        match parse_ipv4_text(candidates[0]) {
            Some(a) => Some(a),
            None => first_ipv4(candidates.drop_first()),
        }
    }
}

proof fn lemma_field_len_exact(t: Seq<char>, sep: char, k: int)
    requires
        0 <= k <= t.len(),
        forall|j: int| 0 <= j < k ==> #[trigger] t[j] != sep,
        k == t.len() || t[k] == sep,
    ensures
        field_len(t, sep) == k,
    decreases k,
{
    if k > 0 {
        let rest = t.drop_first();
        assert forall|j: int| 0 <= j < k - 1 implies #[trigger] rest[j] != sep by {
            assert(rest[j] == t[j + 1]);
        }
        if k < t.len() {
            assert(rest[k - 1] == t[k]);
        }
        lemma_field_len_exact(rest, sep, k - 1);
    }
}

/// The fields of `s` between separators `sep`.
pub fn split_on(s: &Vec<char>, sep: char) -> (r: Vec<Vec<char>>)
    ensures
        views(r@) == fields(s@, sep),
{
    let mut r: Vec<Vec<char>> = Vec::new();
    let mut i: usize = 0;
    assert(s@.skip(0) =~= s@);
    assert(views(r@) =~= Seq::<Seq<char>>::empty());
    loop
        invariant
            i <= s.len(),
            views(r@) + fields(s@.skip(i as int), sep) == fields(s@, sep),
        decreases s.len() - i,
    {
        let start = i;
        let mut field: Vec<char> = Vec::new();
        while i < s.len() && s[i] != sep
            invariant
                start <= i <= s.len(),
                field@ == s@.subrange(start as int, i as int),
                forall|k: int| start <= k < i ==> #[trigger] s@[k] != sep,
            decreases s.len() - i,
        {
            field.push(s[i]);
            i = i + 1;
            assert(field@ =~= s@.subrange(start as int, i as int));
        }
        let ghost t = s@.skip(start as int);
        proof {
            assert forall|j: int| 0 <= j < i - start implies #[trigger] t[j] != sep by {
                assert(t[j] == s@[start + j]);
            }
            if i < s.len() {
                assert(t[i - start] == s@[i as int]);
            }
            lemma_field_len_exact(t, sep, i - start);
            assert(t.take(i - start) =~= field@);
            assert(views(r@.push(field)) =~= views(r@).push(field@));
        }
        if i < s.len() {
            proof {
                assert(t.skip(i - start + 1) =~= s@.skip(i + 1));
                let later = fields(s@.skip(i + 1), sep);
                assert(views(r@) + seq![field@] + later =~= views(r@) + (seq![field@] + later));
            }
            r.push(field);
            i = i + 1;
        } else {
            proof {
                assert(field@ =~= t);
                assert(views(r@) + seq![field@] =~= views(r@).push(field@));
            }
            r.push(field);
            return r;
        }
    }
}

/// The octet that `field` writes, as `Ipv4Addr::from_str` reads a field.
fn parse_octet(field: &Vec<char>) -> (r: Option<u32>)
    ensures
        match decimal_octet(field@) {
            Some(v) => r == Some(v as u32),
            None => r is None,
        },
{
    let n = field.len();
    if n < 1 || n > 3 {
        return None;
    }
    if n > 1 && field[0] == '0' {
        return None;
    }
    let mut value: u32 = 0;
    let mut i: usize = 0;
    assert(field@.take(0) =~= Seq::<char>::empty());
    while i < n
        invariant
            n == field.len(),
            1 <= n <= 3,
            i <= n,
            forall|j: int| 0 <= j < i ==> is_decimal_digit(#[trigger] field@[j]),
            value == decimal_value(field@.take(i as int)),
            value < 1000,
            i == 0 ==> value == 0,
            i <= 1 ==> value < 10,
            i <= 2 ==> value < 100,
        decreases n - i,
    {
        let c = field[i];
        let u = c as u32;
        if u < 0x30 || u > 0x39 {
            assert(!is_decimal_digit(field@[i as int]));
            return None;
        }
        proof {
            let t = field@.take(i + 1);
            assert(t.drop_last() =~= field@.take(i as int));
            assert(t.last() == c);
        }
        value = value * 10 + (u - 0x30);
        i = i + 1;
    }
    assert(field@.take(n as int) =~= field@);
    if value > 255 {
        return None;
    }
    Some(value)
}

/// The IPv4 address that `text` writes in dotted-quad form, as
/// `Ipv4Addr::from_str` reads it.
pub fn parse_ipv4(text: &Vec<char>) -> (r: Option<IpAddress>)
    ensures
        r == parse_ipv4_text(text@),
{
    let parts = split_on(text, '.');
    if parts.len() != 4 {
        return None;
    }
    assert(views(parts@)[0] == parts@[0]@);
    assert(views(parts@)[1] == parts@[1]@);
    assert(views(parts@)[2] == parts@[2]@);
    assert(views(parts@)[3] == parts@[3]@);
    let a = match parse_octet(&parts[0]) {
        Some(v) => v,
        None => return None,
    };
    let b = match parse_octet(&parts[1]) {
        Some(v) => v,
        None => return None,
    };
    let c = match parse_octet(&parts[2]) {
        Some(v) => v,
        None => return None,
    };
    let d = match parse_octet(&parts[3]) {
        Some(v) => v,
        None => return None,
    };
    assert(a * 0x100_0000 + b * 0x1_0000 + c * 0x100 + d <= 0xFFFF_FFFF) by (nonlinear_arith)
        requires
            a <= 255,
            b <= 255,
            c <= 255,
            d <= 255,
    ;
    Some(IpAddress::V4(a * 0x100_0000 + b * 0x1_0000 + c * 0x100 + d))
}

/// The default gateway in `route print 0.0.0.0` output: the first candidate
/// (see [`route_print_gateway_candidates`]) that is an IPv4 address.
pub fn route_print_gateway(output: &Vec<char>) -> (r: Option<IpAddress>)
    ensures
        r == first_ipv4(route_print_candidates(lines(output@))),
{
    let candidates = route_print_gateway_candidates(output);
    let ghost all = views(candidates@);
    let mut i: usize = 0;
    assert(all.skip(0) =~= all);
    while i < candidates.len()
        invariant
            i <= candidates.len(),
            all == views(candidates@),
            all == route_print_candidates(lines(output@)),
            first_ipv4(all) == first_ipv4(all.skip(i as int)),
        decreases candidates.len() - i,
    {
        let ghost rest = all.skip(i as int);
        assert(rest[0] == candidates@[i as int]@);
        assert(rest.drop_first() =~= all.skip(i + 1));
        let address = parse_ipv4(&candidates[i]);
        if address.is_some() {
            return address;
        }
        i = i + 1;
    }
    assert(all.skip(i as int).len() == 0);
    None
}

/// A 16-bit group of an IPv6 address: one to four hexadecimal digits.
pub open spec fn hex_group(field: Seq<char>) -> Option<nat> {
    if 1 <= field.len() <= 4 {
        hex_digits_value(field)
    } else {
        None
    }
}

/// The two 16-bit groups that an IPv4 address stands for inside an IPv6 address.
pub open spec fn ipv4_groups(a: IpAddress) -> Seq<nat> {
    match a {
        IpAddress::V4(v) => seq![(v / 0x1_0000) as nat, (v % 0x1_0000) as nat],
        IpAddress::V6(_) => Seq::empty(),
    }
}

/// The groups that colon-separated `parts` stand for: every part a 16-bit
/// group, except that the last may be an IPv4 address (two groups) where
/// `allow_ipv4` holds.
pub open spec fn groups_of(parts: Seq<Seq<char>>, allow_ipv4: bool) -> Option<Seq<nat>> {
    if parts.len() == 0 {
        Some(Seq::empty())
    } else {
        let init = parts.drop_last();
        let last = parts.last();
        if forall|i: int| 0 <= i < init.len() ==> hex_group(#[trigger] init[i]) is Some {
            let head = init.map_values(|f: Seq<char>| hex_group(f)->0);
            match hex_group(last) {
                Some(g) => Some(head.push(g)),
                None => if allow_ipv4 && parse_ipv4_text(last) is Some {
                    Some(head + ipv4_groups(parse_ipv4_text(last)->0))
                } else {
                    None
                },
            }
        } else {
            None
        }
    }
}

/// Position of the first `"::"` in `s`.
pub open spec fn double_colon(s: Seq<char>) -> Option<nat>
    decreases s.len(),
{
    if s.len() < 2 {
        None
    } else if s[0] == ':' && s[1] == ':' {
        Some(0)
    } else {
        match double_colon(s.drop_first()) {
            Some(p) => Some(p + 1),
            None => None,
        }
    }
}

/// The eight 16-bit groups of the IPv6 address that `s` writes, as
/// `Ipv6Addr::from_str` reads it: eight groups (the last two possibly as an
/// IPv4 address), or groups before and after one `"::"` that stands for at
/// least one zero group (an IPv4 address only at the very end).
pub open spec fn ipv6_groups(s: Seq<char>) -> Option<Seq<nat>> {
    match double_colon(s) {
        None => match groups_of(fields(s, ':'), true) {
            Some(g) => if g.len() == 8 {
                Some(g)
            } else {
                None
            },
            None => None,
        },
        Some(p) => {
            let head = s.take(p as int);
            let tail = s.skip((p + 2) as int);
            let hg = if head.len() == 0 {
                Some(Seq::empty())
            } else {
                groups_of(fields(head, ':'), false)
            };
            let tg = if tail.len() == 0 {
                Some(Seq::empty())
            } else {
                groups_of(fields(tail, ':'), true)
            };
            match (hg, tg) {
                (Some(h), Some(t)) => if h.len() + t.len() <= 7 {
                    Some(h + Seq::new((8 - h.len() - t.len()) as nat, |i: int| 0nat) + t)
                } else {
                    None
                },
                _ => None,
            }
        },
    }
}

/// The 128-bit value of eight 16-bit groups, the first most significant.
pub open spec fn ipv6_value(g: Seq<nat>) -> nat {
    g[0] * 0x1_0000_0000_0000_0000_0000_0000_0000 + g[1] * 0x1_0000_0000_0000_0000_0000_0000 + g[2]
        * 0x1_0000_0000_0000_0000_0000 + g[3] * 0x1_0000_0000_0000_0000 + g[4] * 0x1_0000_0000_0000 + g[5]
        * 0x1_0000_0000 + g[6] * 0x1_0000 + g[7]
}

/// The IP address that `s` writes, as `IpAddr::from_str` reads it: an IPv4
/// address, or else an IPv6 address.
pub open spec fn parse_ip_text(s: Seq<char>) -> Option<IpAddress> {
    match parse_ipv4_text(s) {
        Some(a) => Some(a),
        None => match ipv6_groups(s) {
            Some(g) => Some(IpAddress::V6(ipv6_value(g) as u128)),
            None => None,
        },
    }
}

/// The first of `candidates` that is an IP address, read as one.
pub open spec fn first_ip(candidates: Seq<Seq<char>>) -> Option<IpAddress>
    decreases candidates.len(),
{
    if candidates.len() == 0 {
        None
    } else {
        match parse_ip_text(candidates[0]) {
            Some(a) => Some(a),
            None => first_ip(candidates.drop_first()),
        }
    }
}

/// The values of a list of groups.
pub open spec fn group_values(v: Seq<u32>) -> Seq<nat> {
    v.map_values(|x: u32| x as nat)
}

proof fn lemma_double_colon_first(s: Seq<char>, k: int)
    requires
        0 <= k,
        k + 1 < s.len(),
        s[k] == ':' && s[k + 1] == ':',
        forall|j: int| 0 <= j < k ==> !(#[trigger] s[j] == ':' && s[j + 1] == ':'),
    ensures
        double_colon(s) == Some(k as nat),
    decreases k,
{
    if k > 0 {
        let rest = s.drop_first();
        assert forall|j: int| 0 <= j < k - 1 implies !(#[trigger] rest[j] == ':' && rest[j + 1] == ':') by {
            assert(rest[j] == s[j + 1] && rest[j + 1] == s[j + 2]);
        }
        assert(rest[k - 1] == s[k] && rest[k] == s[k + 1]);
        assert(!(s[0] == ':' && s[1] == ':'));
        lemma_double_colon_first(rest, k - 1);
    }
}

proof fn lemma_double_colon_none(s: Seq<char>)
    requires
        forall|j: int| 0 <= j && j + 1 < s.len() ==> !(#[trigger] s[j] == ':' && s[j + 1] == ':'),
    ensures
        double_colon(s) is None,
    decreases s.len(),
{
    if s.len() >= 2 {
        let rest = s.drop_first();
        assert forall|j: int| 0 <= j && j + 1 < rest.len() implies !(#[trigger] rest[j] == ':' && rest[j + 1] == ':') by {
            assert(rest[j] == s[j + 1] && rest[j + 1] == s[j + 2]);
        }
        assert(!(s[0] == ':' && s[1] == ':'));
        lemma_double_colon_none(rest);
    }
}

/// Position of the first `"::"` in `s`.
fn find_double_colon(s: &Vec<char>) -> (r: Option<usize>)
    ensures
        match r {
            Some(p) => double_colon(s@) == Some(p as nat) && p + 2 <= s.len(),
            None => double_colon(s@) is None,
        },
{
    let mut i: usize = 0;
    while i < s.len() && i + 1 < s.len()
        invariant
            i <= s.len(),
            forall|j: int| 0 <= j < i ==> !(#[trigger] s@[j] == ':' && s@[j + 1] == ':'),
        decreases s.len() - i,
    {
        if s[i] == ':' && s[i + 1] == ':' {
            proof {
                lemma_double_colon_first(s@, i as int);
            }
            return Some(i);
        }
        i = i + 1;
    }
    proof {
        lemma_double_colon_none(s@);
    }
    None
}

/// A 16-bit group of an IPv6 address.
fn parse_hex_group(field: &Vec<char>) -> (r: Option<u32>)
    ensures
        match hex_group(field@) {
            Some(v) => r == Some(v as u32) && v < 0x1_0000,
            None => r is None,
        },
{
    let n = field.len();
    if n < 1 || n > 4 {
        return None;
    }
    let mut value: u32 = 0;
    let mut i: usize = 0;
    assert(field@.take(0) =~= Seq::<char>::empty());
    while i < n
        invariant
            n == field.len(),
            1 <= n <= 4,
            i <= n,
            hex_digits_value(field@.take(i as int)) == Some(value as nat),
            i == 0 ==> value == 0,
            i <= 1 ==> value < 0x10,
            i <= 2 ==> value < 0x100,
            i <= 3 ==> value < 0x1000,
            value < 0x1_0000,
        decreases n - i,
    {
        let ghost before = field@.take(i as int);
        let ghost after = field@.take(i + 1);
        assert(after.drop_last() =~= before);
        assert(after.last() == field@[i as int]);
        match hex_digit(field[i]) {
            None => {
                proof {
                    assert(hex_digits_value(after) is None);
                    if hex_digits_value(field@) is Some {
                        lemma_hex_prefix(field@, i + 1);
                    }
                }
                return None;
            },
            Some(d) => {
                value = value * 16 + d;
            },
        }
        i = i + 1;
    }
    assert(field@.take(n as int) =~= field@);
    Some(value)
}

/// The groups that colon-separated `parts` stand for (see [`groups_of`]).
fn parse_groups(parts: &Vec<Vec<char>>, allow_ipv4: bool) -> (r: Option<Vec<u32>>)
    requires
        parts.len() > 0,
    ensures
        match groups_of(views(parts@), allow_ipv4) {
            Some(g) => r matches Some(v) && group_values(v@) == g && forall|i: int|
                0 <= i < v@.len() ==> #[trigger] v@[i] < 0x1_0000,
            None => r is None,
        },
{
    let ghost all = views(parts@);
    let ghost init = all.drop_last();
    let n = parts.len();
    let mut groups: Vec<u32> = Vec::new();
    let mut i: usize = 0;
    while i + 1 < n
        invariant
            n == parts.len(),
            n > 0,
            i + 1 <= n,
            all == views(parts@),
            init == all.drop_last(),
            forall|j: int| 0 <= j < i ==> hex_group(#[trigger] init[j]) is Some,
            group_values(groups@) == init.take(i as int).map_values(|f: Seq<char>| hex_group(f)->0),
            forall|j: int| 0 <= j < groups@.len() ==> #[trigger] groups@[j] < 0x1_0000,
        decreases n - i,
    {
        assert(init[i as int] == parts@[i as int]@);
        match parse_hex_group(&parts[i]) {
            None => {
                return None;
            },
            Some(g) => {
                let ghost before = groups@;
                groups.push(g);
                proof {
                    assert(group_values(groups@) =~= group_values(before).push(g as nat));
                    assert(init.take(i + 1) =~= init.take(i as int).push(init[i as int]));
                    assert(group_values(groups@) =~= init.take(i + 1).map_values(
                        |f: Seq<char>| hex_group(f)->0,
                    ));
                }
            },
        }
        i = i + 1;
    }
    assert(init.take(i as int) =~= init);
    let last = &parts[n - 1];
    assert(all.last() == last@);
    match parse_hex_group(last) {
        Some(g) => {
            let ghost before = groups@;
            groups.push(g);
            assert(group_values(groups@) =~= group_values(before).push(g as nat));
            Some(groups)
        },
        None => {
            if !allow_ipv4 {
                return None;
            }
            match parse_ipv4(last) {
                None => None,
                Some(address) => {
                    let v = match address {
                        IpAddress::V4(v) => v,
                        IpAddress::V6(_) => 0,
                    };
                    let ghost before = groups@;
                    groups.push(v / 0x1_0000);
                    groups.push(v % 0x1_0000);
                    assert(group_values(groups@) =~= group_values(before) + ipv4_groups(address));
                    Some(groups)
                },
            }
        },
    }
}

/// The groups of the part of an IPv6 address on one side of `"::"`: none if
/// the part is empty.
fn parse_side(part: &Vec<char>, allow_ipv4: bool) -> (r: Option<Vec<u32>>)
    ensures
        match (if part@.len() == 0 {
            Some(Seq::<nat>::empty())
        } else {
            groups_of(fields(part@, ':'), allow_ipv4)
        }) {
            Some(g) => r matches Some(v) && group_values(v@) == g && forall|i: int|
                0 <= i < v@.len() ==> #[trigger] v@[i] < 0x1_0000,
            None => r is None,
        },
{
    if part.len() == 0 {
        let v: Vec<u32> = Vec::new();
        assert(group_values(v@) =~= Seq::<nat>::empty());
        return Some(v);
    }
    let parts = split_on(part, ':');
    parse_groups(&parts, allow_ipv4)
}

/// The 128-bit value of eight 16-bit groups.
fn groups_to_u128(g: &Vec<u32>) -> (r: u128)
    requires
        g.len() == 8,
        forall|i: int| 0 <= i < 8 ==> #[trigger] g@[i] < 0x1_0000,
    ensures
        r == ipv6_value(group_values(g@)),
{
    let g0 = g[0] as u128;
    let g1 = g[1] as u128;
    let g2 = g[2] as u128;
    let g3 = g[3] as u128;
    let g4 = g[4] as u128;
    let g5 = g[5] as u128;
    let g6 = g[6] as u128;
    let g7 = g[7] as u128;
    assert(group_values(g@)[0] == g0 && group_values(g@)[1] == g1 && group_values(g@)[2] == g2
        && group_values(g@)[3] == g3 && group_values(g@)[4] == g4 && group_values(g@)[5] == g5
        && group_values(g@)[6] == g6 && group_values(g@)[7] == g7);
    g0 * 0x1_0000_0000_0000_0000_0000_0000_0000 + g1 * 0x1_0000_0000_0000_0000_0000_0000 + g2
        * 0x1_0000_0000_0000_0000_0000 + g3 * 0x1_0000_0000_0000_0000 + g4 * 0x1_0000_0000_0000 + g5
        * 0x1_0000_0000 + g6 * 0x1_0000 + g7
}

/// The characters of `text` from `from` up to, not including, `to`.
fn slice_of(text: &Vec<char>, from: usize, to: usize) -> (r: Vec<char>)
    requires
        from <= to <= text.len(),
    ensures
        r@ == text@.subrange(from as int, to as int),
{
    let mut r: Vec<char> = Vec::new();
    let mut i: usize = from;
    while i < to
        invariant
            from <= i <= to <= text.len(),
            r@ == text@.subrange(from as int, i as int),
        decreases to - i,
    {
        r.push(text[i]);
        i = i + 1;
        assert(r@ =~= text@.subrange(from as int, i as int));
    }
    r
}

/// The groups `h`, then as many zero groups as make eight in all, then `t`.
fn fill_groups(h: &Vec<u32>, t: &Vec<u32>) -> (g: Vec<u32>)
    requires
        h.len() + t.len() <= 7,
        forall|i: int| 0 <= i < h@.len() ==> #[trigger] h@[i] < 0x1_0000,
        forall|i: int| 0 <= i < t@.len() ==> #[trigger] t@[i] < 0x1_0000,
    ensures
        g.len() == 8,
        forall|i: int| 0 <= i < 8 ==> #[trigger] g@[i] < 0x1_0000,
        group_values(g@) == group_values(h@) + Seq::new(
            (8 - h.len() - t.len()) as nat,
            |i: int| 0nat,
        ) + group_values(t@),
{
    let zeros = 8 - h.len() - t.len();
    let mut g: Vec<u32> = Vec::new();
    let mut k: usize = 0;
    while k < h.len()
        invariant
            k <= h.len(),
            g@ == h@.take(k as int),
        decreases h.len() - k,
    {
        g.push(h[k]);
        k = k + 1;
        assert(g@ =~= h@.take(k as int));
    }
    assert(h@.take(k as int) =~= h@);
    let mut z: usize = 0;
    while z < zeros
        invariant
            z <= zeros,
            g@ == h@ + Seq::new(z as nat, |x: int| 0u32),
        decreases zeros - z,
    {
        g.push(0);
        z = z + 1;
        assert(g@ =~= h@ + Seq::new(z as nat, |x: int| 0u32));
    }
    let mut k: usize = 0;
    let ghost mid = g@;
    while k < t.len()
        invariant
            k <= t.len(),
            g@ == mid + t@.take(k as int),
        decreases t.len() - k,
    {
        g.push(t[k]);
        k = k + 1;
        assert(g@ =~= mid + t@.take(k as int));
    }
    assert(t@.take(k as int) =~= t@);
    assert(g@ =~= h@ + Seq::new(zeros as nat, |x: int| 0u32) + t@);
    proof {
        assert(group_values(g@) =~= group_values(h@) + Seq::new(zeros as nat, |i: int| 0nat)
            + group_values(t@));
        assert forall|i: int| 0 <= i < 8 implies #[trigger] g@[i] < 0x1_0000 by {
            if i < h@.len() {
                assert(g@[i] == h@[i]);
            } else if i >= 8 - t@.len() {
                assert(g@[i] == t@[i - (8 - t@.len())]);
            }
        }
    }
    g
}

/// The IPv6 address that `text` writes, as `Ipv6Addr::from_str` reads it.
pub fn parse_ipv6(text: &Vec<char>) -> (r: Option<IpAddress>)
    ensures
        r == (match ipv6_groups(text@) {
            Some(g) => Some(IpAddress::V6(ipv6_value(g) as u128)),
            None => None::<IpAddress>,
        }),
{
    match find_double_colon(text) {
        None => {
            let parts = split_on(text, ':');
            match parse_groups(&parts, true) {
                None => None,
                Some(g) => {
                    if g.len() != 8 {
                        return None;
                    }
                    Some(IpAddress::V6(groups_to_u128(&g)))
                },
            }
        },
        Some(p) => {
            let head = slice_of(text, 0, p);
            let tail = slice_of(text, p + 2, text.len());
            assert(head@ =~= text@.take(p as int));
            assert(tail@ =~= text@.skip(p + 2));
            let h = match parse_side(&head, false) {
                Some(h) => h,
                None => return None,
            };
            let t = match parse_side(&tail, true) {
                Some(t) => t,
                None => return None,
            };
            if h.len() > 7 || t.len() > 7 - h.len() {
                return None;
            }
            let g = fill_groups(&h, &t);
            Some(IpAddress::V6(groups_to_u128(&g)))
        },
    }
}

/// The IP address that `text` writes, as `IpAddr::from_str` reads it.
pub fn parse_ip(text: &Vec<char>) -> (r: Option<IpAddress>)
    ensures
        r == parse_ip_text(text@),
{
    match parse_ipv4(text) {
        Some(a) => Some(a),
        None => parse_ipv6(text),
    }
}

/// The default gateway in `netstat -nr` output: the first candidate (see
/// [`netstat_gateway_candidates`]) that is an IP address.
pub fn netstat_gateway(output: &Vec<char>) -> (r: Option<IpAddress>)
    ensures
        r == first_ip(netstat_candidates(lines(output@))),
{
    let candidates = netstat_gateway_candidates(output);
    let ghost all = views(candidates@);
    let mut i: usize = 0;
    assert(all.skip(0) =~= all);
    while i < candidates.len()
        invariant
            i <= candidates.len(),
            all == views(candidates@),
            all == netstat_candidates(lines(output@)),
            first_ip(all) == first_ip(all.skip(i as int)),
        decreases candidates.len() - i,
    {
        let ghost rest = all.skip(i as int);
        assert(rest[0] == candidates@[i as int]@);
        assert(rest.drop_first() =~= all.skip(i + 1));
        let address = parse_ip(&candidates[i]);
        if address.is_some() {
            return address;
        }
        i = i + 1;
    }
    assert(all.skip(i as int).len() == 0);
    None
}

} // verus!
