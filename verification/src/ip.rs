//! IP addresses as the resolver sees them: a value model, text parsing, and
//! the global-routability predicate over the standard reserved ranges.

use vstd::prelude::*;
use crate::text::split_on;

verus! {

/// An IPv4 address, one field per octet of the dotted-quad form.
#[derive(Clone, Copy, Debug, PartialEq, Eq)]
pub struct Ipv4Address {
    pub a: u8,
    pub b: u8,
    pub c: u8,
    pub d: u8,
}

/// An IPv6 address, one field per 16-bit group of the colon-separated form.
#[derive(Clone, Copy, Debug, PartialEq, Eq)]
pub struct Ipv6Address {
    pub g0: u16,
    pub g1: u16,
    pub g2: u16,
    pub g3: u16,
    pub g4: u16,
    pub g5: u16,
    pub g6: u16,
    pub g7: u16,
}

/// An IP address of either family.
#[derive(Clone, Copy, Debug, PartialEq, Eq)]
pub enum IpAddress {
    V4(Ipv4Address),
    V6(Ipv6Address),
}

/// A decimal digit.
pub open spec fn is_digit(c: char) -> bool {
    48 <= c as int <= 57
}

/// The value of one decimal digit.
pub open spec fn digit_val(c: char) -> int {
    c as int - 48
}

/// Every character of `p` is a decimal digit.
pub open spec fn all_digits(p: Seq<char>) -> bool {
    forall|i: int| 0 <= i < p.len() ==> is_digit(p[i])
}

/// The decimal value of a digit string, most significant digit first.
pub open spec fn dec_val(p: Seq<char>) -> int
    decreases p.len(),
{
    if p.len() == 0 {
        0
    } else {
        dec_val(p.drop_last()) * 10 + digit_val(p.last())
    }
}

/// A valid dotted-quad part: one to three decimal digits, no leading zero,
/// value at most 255.
pub open spec fn valid_octet(p: Seq<char>) -> bool {
    &&& 1 <= p.len() <= 3
    &&& all_digits(p)
    &&& (p.len() > 1 ==> p[0] != '0')
    &&& dec_val(p) <= 255
}

/// The address an IPv4 text denotes, if it is a well-formed dotted quad.
pub open spec fn parse_ipv4(s: Seq<char>) -> Option<Ipv4Address> {
    let parts = split_on(s, '.');
    if parts.len() == 4 && valid_octet(parts[0]) && valid_octet(parts[1]) && valid_octet(parts[2])
        && valid_octet(parts[3]) {
        Some(
            Ipv4Address {
                a: dec_val(parts[0]) as u8,
                b: dec_val(parts[1]) as u8,
                c: dec_val(parts[2]) as u8,
                d: dec_val(parts[3]) as u8,
            },
        )
    } else {
        None
    }
}

/// A short all-digit string has a small value: at most one digit stays under
/// ten, two under a hundred, three under a thousand.
proof fn lemma_dec_val_bounds(p: Seq<char>)
    requires
        all_digits(p),
        p.len() <= 3,
    ensures
        dec_val(p) >= 0,
        p.len() <= 1 ==> dec_val(p) <= 9,
        p.len() <= 2 ==> dec_val(p) <= 99,
        dec_val(p) <= 999,
    decreases p.len(),
{
    if p.len() > 0 {
        assert(all_digits(p.drop_last())) by {
            assert(forall|i: int|
                0 <= i < p.len() - 1 ==> p.drop_last()[i] == p[i] && is_digit(p[i]));
        }
        lemma_dec_val_bounds(p.drop_last());
        assert(is_digit(p.last()));
    }
}

/// Parses one dotted-quad part.
fn parse_octet(p: &str) -> (r: Option<u8>)
    ensures
        r == (if valid_octet(p@) {
            Some(dec_val(p@) as u8)
        } else {
            None::<u8>
        }),
{
    let n = p.unicode_len();
    if n < 1 || n > 3 {
        return None;
    }
    let mut val: u32 = 0;
    let mut i: usize = 0;
    proof {
        assert(p@.subrange(0, 0) =~= Seq::<char>::empty());
    }
    while i < n
        invariant
            i <= n,
            1 <= n <= 3,
            n == p@.len(),
            all_digits(p@.subrange(0, i as int)),
            val == dec_val(p@.subrange(0, i as int)),
        decreases n - i,
    {
        let ghost pre = p@.subrange(0, i as int);
        let c = p.get_char(i);
        let u = c as u32;
        if u < 48 || u > 57 {
            proof {
                assert(!is_digit(p@[i as int]));
                assert(!all_digits(p@));
            }
            return None;
        }
        proof {
            lemma_dec_val_bounds(pre);
            assert(p@.subrange(0, i + 1).drop_last() =~= pre);
            assert(p@.subrange(0, i + 1).last() == p@[i as int]);
        }
        val = val * 10 + (u - 48);
        i = i + 1;
        proof {
            assert(all_digits(p@.subrange(0, i as int)));
        }
    }
    proof {
        assert(p@.subrange(0, n as int) =~= p@);
    }
    if n > 1 && p.get_char(0) == '0' {
        proof {
            assert(!valid_octet(p@));
        }
        return None;
    }
    if val > 255 {
        return None;
    }
    proof {
        assert(valid_octet(p@));
    }
    Some(val as u8)
}

/// Parses a dotted-quad IPv4 text.
pub fn parse_ipv4_str(s: &str) -> (r: Option<Ipv4Address>)
    ensures
        r == parse_ipv4(s@),
{
    let parts = crate::text::split_str(s, '.');
    let ghost views = parts@.map_values(|t: String| t@);
    if parts.len() != 4 {
        return None;
    }
    proof {
        assert(views[0] == parts@[0]@);
        assert(views[1] == parts@[1]@);
        assert(views[2] == parts@[2]@);
        assert(views[3] == parts@[3]@);
    }
    let a = parse_octet(parts[0].as_str());
    let b = parse_octet(parts[1].as_str());
    let c = parse_octet(parts[2].as_str());
    let d = parse_octet(parts[3].as_str());
    match (a, b, c, d) {
        (Some(a), Some(b), Some(c), Some(d)) => Some(Ipv4Address { a, b, c, d }),
        _ => None,
    }
}

/// A hexadecimal digit, of either case.
pub open spec fn is_hex(c: char) -> bool {
    is_digit(c) || 97 <= c as int <= 102 || 65 <= c as int <= 70
}

/// The value of one hexadecimal digit.
pub open spec fn hex_digit_val(c: char) -> int {
    if is_digit(c) {
        digit_val(c)
    } else if 97 <= c as int {
        c as int - 87
    } else {
        c as int - 55
    }
}

/// Every character of `p` is a hexadecimal digit.
pub open spec fn all_hex(p: Seq<char>) -> bool {
    forall|i: int| 0 <= i < p.len() ==> is_hex(p[i])
}

/// The hexadecimal value of a digit string, most significant digit first.
pub open spec fn hex_val(p: Seq<char>) -> int
    decreases p.len(),
{
    if p.len() == 0 {
        0
    } else {
        hex_val(p.drop_last()) * 16 + hex_digit_val(p.last())
    }
}

/// A valid 16-bit group of a colon-separated address: one to four
/// hexadecimal digits (leading zeros allowed).
pub open spec fn valid_h16(p: Seq<char>) -> bool {
    1 <= p.len() <= 4 && all_hex(p)
}

/// Every part of `ps` is a valid 16-bit group.
pub open spec fn all_h16(ps: Seq<Seq<char>>) -> bool {
    forall|i: int| 0 <= i < ps.len() ==> valid_h16(#[trigger] ps[i])
}

/// The group values of an all-groups run.
pub open spec fn h16_vals(ps: Seq<Seq<char>>) -> Seq<u16> {
    ps.map_values(|p: Seq<char>| hex_val(p) as u16)
}

/// The group values of the run after the compression point (or of the whole
/// address when nothing is compressed): 16-bit groups, of which the last may
/// instead be a dotted quad carrying the final two groups.
pub open spec fn tail_group_vals(ps: Seq<Seq<char>>) -> Option<Seq<u16>> {
    if ps.len() == 0 {
        Some(Seq::<u16>::empty())
    } else if all_h16(ps) {
        Some(h16_vals(ps))
    } else if all_h16(ps.drop_last()) && parse_ipv4(ps.last()) is Some {
        let v4 = parse_ipv4(ps.last())->0;
        Some(
            h16_vals(ps.drop_last()) + seq![
                ((v4.a * 256 + v4.b) as u16),
                ((v4.c * 256 + v4.d) as u16),
            ],
        )
    } else {
        None
    }
}

/// No part of `ps` is empty.
pub open spec fn no_empty_part(ps: Seq<Seq<char>>) -> bool {
    forall|i: int| 0 <= i < ps.len() ==> (#[trigger] ps[i]).len() > 0
}

/// The index of the first empty part, or the length when none is empty.
pub open spec fn first_empty_idx(ps: Seq<Seq<char>>) -> int
    decreases ps.len(),
{
    if ps.len() == 0 {
        0
    } else if ps[0].len() == 0 {
        0
    } else {
        1 + first_empty_idx(ps.drop_first())
    }
}

/// The address whose eight groups are `g` (which must have eight entries).
pub open spec fn address_of_groups(g: Seq<u16>) -> Ipv6Address {
    Ipv6Address {
        g0: g[0],
        g1: g[1],
        g2: g[2],
        g3: g[3],
        g4: g[4],
        g5: g[5],
        g6: g[6],
        g7: g[7],
    }
}

/// The address denoted by a compressed form: the groups before the double
/// colon, then enough zero groups to make eight, then the groups after it.
/// Valid only when the head is all plain groups, the tail is a valid tail
/// run, and together they leave at least one group to the zeros.
pub open spec fn compressed_address(head: Seq<Seq<char>>, tail: Seq<Seq<char>>) -> Option<
    Ipv6Address,
> {
    if all_h16(head) && tail_group_vals(tail) is Some {
        let gh = h16_vals(head);
        let gt = tail_group_vals(tail)->0;
        if gh.len() + gt.len() <= 7 {
            Some(address_of_groups(gh + Seq::<u16>::new((8 - gh.len() - gt.len()) as nat, |i: int| 0u16) + gt))
        } else {
            None
        }
    } else {
        None
    }
}

/// The address an IPv6 text denotes, if any: the colon-split parts are
/// either eight groups with no compression (a dotted quad allowed as the
/// final two groups), or a head and tail around one double colon, which the
/// empty parts of the split betray: two leading empties for a leading
/// double colon, two trailing ones for a trailing double colon, a single
/// inner empty for one in the middle, and three empties for the double
/// colon alone.
pub open spec fn parse_ipv6(s: Seq<char>) -> Option<Ipv6Address> {
    let ps = split_on(s, ':');
    let n = ps.len();
    let j = first_empty_idx(ps);
    if j == n {
        match tail_group_vals(ps) {
            Some(g) => if g.len() == 8 {
                Some(address_of_groups(g))
            } else {
                None
            },
            None => None,
        }
    } else if n == 3 && ps[0].len() == 0 && ps[1].len() == 0 && ps[2].len() == 0 {
        Some(address_of_groups(Seq::<u16>::new(8, |i: int| 0u16)))
    } else if n >= 3 && j == 0 && ps[1].len() == 0 && no_empty_part(ps.skip(2)) {
        compressed_address(Seq::<Seq<char>>::empty(), ps.skip(2))
    } else if n >= 3 && j == n - 2 && ps[n - 1].len() == 0 {
        compressed_address(ps.take(n - 2), Seq::<Seq<char>>::empty())
    } else if 0 < j < n - 1 && no_empty_part(ps.skip(j + 1)) {
        compressed_address(ps.take(j), ps.skip(j + 1))
    } else {
        None
    }
}

/// A short hex string has a small value: at most four digits stay under
/// sixteen to the fourth.
proof fn lemma_hex_val_bounds(p: Seq<char>)
    requires
        all_hex(p),
        p.len() <= 4,
    ensures
        hex_val(p) >= 0,
        p.len() <= 1 ==> hex_val(p) <= 0xf,
        p.len() <= 2 ==> hex_val(p) <= 0xff,
        p.len() <= 3 ==> hex_val(p) <= 0xfff,
        hex_val(p) <= 0xffff,
    decreases p.len(),
{
    if p.len() > 0 {
        assert(all_hex(p.drop_last())) by {
            assert(forall|i: int| 0 <= i < p.len() - 1 ==> p.drop_last()[i] == p[i] && is_hex(p[i]));
        }
        lemma_hex_val_bounds(p.drop_last());
        assert(is_hex(p.last()));
    }
}

/// Parses one 16-bit group.
fn parse_h16(p: &str) -> (r: Option<u16>)
    ensures
        r == (if valid_h16(p@) {
            Some(hex_val(p@) as u16)
        } else {
            None::<u16>
        }),
{
    let n = p.unicode_len();
    if n < 1 || n > 4 {
        return None;
    }
    let mut val: u32 = 0;
    let mut i: usize = 0;
    proof {
        assert(p@.subrange(0, 0) =~= Seq::<char>::empty());
    }
    while i < n
        invariant
            i <= n,
            1 <= n <= 4,
            n == p@.len(),
            all_hex(p@.subrange(0, i as int)),
            val == hex_val(p@.subrange(0, i as int)),
        decreases n - i,
    {
        let ghost pre = p@.subrange(0, i as int);
        let c = p.get_char(i);
        let u = c as u32;
        let d: u32 = if 48 <= u && u <= 57 {
            u - 48
        } else if 97 <= u && u <= 102 {
            u - 87
        } else if 65 <= u && u <= 70 {
            u - 55
        } else {
            proof {
                assert(!is_hex(p@[i as int]));
                assert(!all_hex(p@));
            }
            return None;
        };
        proof {
            lemma_hex_val_bounds(pre);
            assert(p@.subrange(0, i + 1).drop_last() =~= pre);
            assert(p@.subrange(0, i + 1).last() == p@[i as int]);
            assert(d == hex_digit_val(p@[i as int]));
        }
        val = val * 16 + d;
        i = i + 1;
        proof {
            assert(all_hex(p@.subrange(0, i as int)));
        }
    }
    proof {
        assert(p@.subrange(0, n as int) =~= p@);
        lemma_hex_val_bounds(p@);
    }
    Some(val as u16)
}

/// Computes the group values of the parts run `parts[lo..hi]`, read as the
/// run after a compression point.
fn tail_groups_exec(parts: &Vec<String>, lo: usize, hi: usize) -> (r: Option<Vec<u16>>)
    requires
        lo <= hi <= parts@.len(),
    ensures
        ({
            let ps = parts@.map_values(|t: String| t@).subrange(lo as int, hi as int);
            match r {
                Some(v) => tail_group_vals(ps) == Some(v@),
                None => tail_group_vals(ps) is None,
            }
        }),
{
    let ghost ps = parts@.map_values(|t: String| t@).subrange(lo as int, hi as int);
    let mut out: Vec<u16> = Vec::new();
    let mut i: usize = lo;
    while i < hi
        invariant
            lo <= i <= hi <= parts@.len(),
            ps == parts@.map_values(|t: String| t@).subrange(lo as int, hi as int),
            all_h16(ps.subrange(0, i - lo)),
            out@ == h16_vals(ps.subrange(0, i - lo)),
        decreases hi - i,
    {
        let ghost k = i - lo;
        proof {
            assert(ps[k] == parts@[i as int]@);
        }
        match parse_h16(parts[i].as_str()) {
            Some(g) => {
                out.push(g);
                proof {
                    assert(ps.subrange(0, k + 1).drop_last() =~= ps.subrange(0, k));
                    assert(ps.subrange(0, k + 1).last() == ps[k]);
                    assert(all_h16(ps.subrange(0, k + 1))) by {
                        assert(forall|m: int|
                            0 <= m < k + 1 ==> ps.subrange(0, k + 1)[m] == #[trigger] ps[m]);
                        assert(forall|m: int|
                            0 <= m < k ==> valid_h16(#[trigger] ps.subrange(0, k)[m]));
                    }
                    assert(out@ =~= h16_vals(ps.subrange(0, k + 1)));
                }
            },
            None => {
                proof {
                    assert(!valid_h16(ps[k]));
                    assert(!all_h16(ps));
                }
                if i + 1 < hi {
                    proof {
                        assert(ps.drop_last().len() == ps.len() - 1);
                        assert(ps.drop_last()[k] == ps[k]);
                        assert(!all_h16(ps.drop_last()));
                    }
                    return None;
                }
                // the failing part is the last: it may be a dotted quad
                proof {
                    assert(k == ps.len() - 1);
                    assert(ps.last() == ps[k]);
                    assert(ps.drop_last() =~= ps.subrange(0, k));
                }
                match parse_ipv4_str(parts[i].as_str()) {
                    Some(v4) => {
                        out.push(v4.a as u16 * 256 + v4.b as u16);
                        out.push(v4.c as u16 * 256 + v4.d as u16);
                        proof {
                            assert(out@ =~= h16_vals(ps.drop_last()) + seq![
                                ((v4.a * 256 + v4.b) as u16),
                                ((v4.c * 256 + v4.d) as u16),
                            ]);
                        }
                        return Some(out);
                    },
                    None => {
                        return None;
                    },
                }
            },
        }
        i = i + 1;
    }
    proof {
        assert(ps.subrange(0, hi - lo) =~= ps);
        if ps.len() == 0 {
            assert(out@ =~= Seq::<u16>::empty());
        }
    }
    Some(out)
}

/// Computes the group values of the parts run `parts[0..hi]`, read as the
/// run before a compression point: plain 16-bit groups only.
fn head_groups_exec(parts: &Vec<String>, hi: usize) -> (r: Option<Vec<u16>>)
    requires
        hi <= parts@.len(),
    ensures
        ({
            let ps = parts@.map_values(|t: String| t@).take(hi as int);
            match r {
                Some(v) => all_h16(ps) && v@ == h16_vals(ps),
                None => !all_h16(ps),
            }
        }),
{
    let ghost ps = parts@.map_values(|t: String| t@).take(hi as int);
    let mut out: Vec<u16> = Vec::new();
    let mut i: usize = 0;
    while i < hi
        invariant
            i <= hi <= parts@.len(),
            ps == parts@.map_values(|t: String| t@).take(hi as int),
            all_h16(ps.subrange(0, i as int)),
            out@ == h16_vals(ps.subrange(0, i as int)),
        decreases hi - i,
    {
        proof {
            assert(ps[i as int] == parts@[i as int]@);
        }
        match parse_h16(parts[i].as_str()) {
            Some(g) => {
                out.push(g);
                proof {
                    assert(ps.subrange(0, i + 1).drop_last() =~= ps.subrange(0, i as int));
                    assert(ps.subrange(0, i + 1).last() == ps[i as int]);
                    assert(all_h16(ps.subrange(0, i + 1))) by {
                        assert(forall|m: int|
                            0 <= m < i + 1 ==> ps.subrange(0, i + 1)[m] == #[trigger] ps[m]);
                        assert(forall|m: int|
                            0 <= m < i ==> valid_h16(#[trigger] ps.subrange(0, i as int)[m]));
                    }
                    assert(out@ =~= h16_vals(ps.subrange(0, i + 1)));
                }
            },
            None => {
                proof {
                    assert(!valid_h16(ps[i as int]));
                }
                return None;
            },
        }
        i = i + 1;
    }
    proof {
        assert(ps.subrange(0, hi as int) =~= ps);
    }
    Some(out)
}

/// If everything before `j` is nonempty and `j` is the length or an empty
/// part, then `j` is the first empty index.
proof fn lemma_first_empty_at(ps: Seq<Seq<char>>, j: int)
    requires
        0 <= j <= ps.len(),
        forall|k: int| 0 <= k < j ==> (#[trigger] ps[k]).len() > 0,
        j < ps.len() ==> ps[j].len() == 0,
    ensures
        first_empty_idx(ps) == j,
    decreases ps.len(),
{
    if ps.len() > 0 && j > 0 {
        assert(forall|k: int|
            0 <= k < j - 1 ==> (#[trigger] ps.drop_first()[k]).len() > 0 && ps.drop_first()[k]
                == ps[k + 1]);
        assert(j - 1 < ps.drop_first().len() ==> ps.drop_first()[j - 1].len() == 0);
        lemma_first_empty_at(ps.drop_first(), j - 1);
    }
}

/// Builds the address from eight group values.
fn assemble_groups(g: &Vec<u16>) -> (r: Ipv6Address)
    requires
        g@.len() == 8,
    ensures
        r == address_of_groups(g@),
{
    Ipv6Address {
        g0: g[0],
        g1: g[1],
        g2: g[2],
        g3: g[3],
        g4: g[4],
        g5: g[5],
        g6: g[6],
        g7: g[7],
    }
}

/// Builds the address of a compressed form out of its head and tail group
/// values: head, zeros, tail.
fn assemble_compressed(gh: &Vec<u16>, gt: &Vec<u16>) -> (r: Ipv6Address)
    requires
        gh@.len() + gt@.len() <= 7,
    ensures
        r == address_of_groups(
            gh@ + Seq::<u16>::new((8 - gh@.len() - gt@.len()) as nat, |i: int| 0u16) + gt@,
        ),
{
    let mut all: Vec<u16> = Vec::new();
    let mut i: usize = 0;
    while i < gh.len()
        invariant
            i <= gh@.len(),
            all@ == gh@.subrange(0, i as int),
        decreases gh@.len() - i,
    {
        all.push(gh[i]);
        proof {
            assert(all@ =~= gh@.subrange(0, i + 1));
        }
        i = i + 1;
    }
    proof {
        assert(all@ =~= gh@);
    }
    let zeros: usize = 8 - gh.len() - gt.len();
    let mut z: usize = 0;
    while z < zeros
        invariant
            z <= zeros,
            zeros == 8 - gh@.len() - gt@.len(),
            all@ == gh@ + Seq::<u16>::new(z as nat, |i: int| 0u16),
        decreases zeros - z,
    {
        all.push(0);
        proof {
            assert(all@ =~= gh@ + Seq::<u16>::new((z + 1) as nat, |i: int| 0u16));
        }
        z = z + 1;
    }
    let ghost mid = gh@ + Seq::<u16>::new((8 - gh@.len() - gt@.len()) as nat, |i: int| 0u16);
    let mut t: usize = 0;
    while t < gt.len()
        invariant
            t <= gt@.len(),
            mid == gh@ + Seq::<u16>::new((8 - gh@.len() - gt@.len()) as nat, |i: int| 0u16),
            all@ == mid + gt@.subrange(0, t as int),
        decreases gt@.len() - t,
    {
        all.push(gt[t]);
        proof {
            assert(all@ =~= mid + gt@.subrange(0, t + 1));
        }
        t = t + 1;
    }
    proof {
        assert(gt@.subrange(0, gt@.len() as int) =~= gt@);
        assert(all@ =~= mid + gt@);
        assert(all@.len() == 8);
    }
    assemble_groups(&all)
}

/// Parses a colon-separated IPv6 text.
pub fn parse_ipv6_str(s: &str) -> (r: Option<Ipv6Address>)
    ensures
        r == parse_ipv6(s@),
{
    let parts = crate::text::split_str(s, ':');
    let ghost views = parts@.map_values(|t: String| t@);
    let n = parts.len();
    let mut j: usize = 0;
    while j < n && !parts[j].as_str().is_empty()
        invariant
            j <= n,
            n == views.len(),
            views == parts@.map_values(|t: String| t@),
            forall|k: int| 0 <= k < j ==> (#[trigger] views[k]).len() > 0,
        decreases n - j,
    {
        proof {
            assert(views[j as int] == parts@[j as int]@);
        }
        j = j + 1;
    }
    proof {
        if j < n {
            assert(views[j as int] == parts@[j as int]@);
        }
        lemma_first_empty_at(views, j as int);
    }
    if j == n {
        // no compression point
        match tail_groups_exec(&parts, 0, n) {
            Some(g) => {
                proof {
                    assert(views.subrange(0, n as int) =~= views);
                }
                if g.len() == 8 {
                    Some(assemble_groups(&g))
                } else {
                    None
                }
            },
            None => {
                proof {
                    assert(views.subrange(0, n as int) =~= views);
                }
                None
            },
        }
    } else if n == 3 && parts[0].as_str().is_empty() && parts[1].as_str().is_empty()
        && parts[2].as_str().is_empty() {
        proof {
            assert(views[0] == parts@[0]@);
            assert(views[1] == parts@[1]@);
            assert(views[2] == parts@[2]@);
        }
        let zeros: Vec<u16> = vec![0, 0, 0, 0, 0, 0, 0, 0];
        proof {
            assert(zeros@ =~= Seq::<u16>::new(8, |i: int| 0u16));
        }
        Some(assemble_groups(&zeros))
    } else if n >= 3 && j == 0 && parts[1].as_str().is_empty() {
        proof {
            assert(views[1] == parts@[1]@);
        }
        parse_tail_only(&parts, Ghost(views))
    } else if n >= 3 && j == n - 2 && parts[n - 1].as_str().is_empty() {
        proof {
            assert(views[n - 1] == parts@[n - 1]@);
        }
        // trailing double colon: everything before it is the head
        match head_groups_exec(&parts, n - 2) {
            Some(gh) => {
                if gh.len() <= 7 {
                    proof {
                        assert(tail_group_vals(Seq::<Seq<char>>::empty())
                            == Some(Seq::<u16>::empty()));
                        assert(h16_vals(views.take(n - 2)) == gh@);
                        assert(gh@ + Seq::<u16>::new((8 - gh@.len()) as nat, |i: int| 0u16)
                            + Seq::<u16>::empty() =~= gh@ + Seq::<u16>::new(
                            (8 - gh@.len()) as nat,
                            |i: int| 0u16,
                        ));
                    }
                    let gt: Vec<u16> = Vec::new();
                    Some(assemble_compressed(&gh, &gt))
                } else {
                    None
                }
            },
            None => None,
        }
    } else if 0 < j && j < n - 1 {
        // a single inner empty part, if nothing after it is empty either
        let mut k: usize = j + 1;
        let mut clean = true;
        while k < n
            invariant
                j + 1 <= k <= n,
                n == views.len(),
                views == parts@.map_values(|t: String| t@),
                clean ==> forall|m: int| j + 1 <= m < k ==> (#[trigger] views[m]).len() > 0,
                !clean ==> !no_empty_part(views.skip(j + 1)),
            decreases n - k,
        {
            proof {
                assert(views[k as int] == parts@[k as int]@);
            }
            if parts[k].as_str().is_empty() {
                clean = false;
                proof {
                    assert(views.skip(j + 1)[k - j - 1] == views[k as int]);
                    assert(!no_empty_part(views.skip(j + 1)));
                }
            }
            k = k + 1;
        }
        if !clean {
            None
        } else {
            proof {
                assert(forall|m: int|
                    0 <= m < views.skip(j + 1).len() ==> (#[trigger] views.skip(j + 1)[m])
                        == views[m + j + 1]);
                assert(no_empty_part(views.skip(j + 1)));
            }
            match head_groups_exec(&parts, j) {
                Some(gh) => {
                    match tail_groups_exec(&parts, j + 1, n) {
                        Some(gt) => {
                            proof {
                                assert(views.subrange(j + 1, n as int) =~= views.skip(j + 1));
                            }
                            if gh.len() + gt.len() <= 7 {
                                Some(assemble_compressed(&gh, &gt))
                            } else {
                                None
                            }
                        },
                        None => {
                            proof {
                                assert(views.subrange(j + 1, n as int) =~= views.skip(j + 1));
                            }
                            None
                        },
                    }
                },
                None => None,
            }
        }
    } else {
        None
    }
}

/// The leading-double-colon case: an empty head, the tail from the third
/// part on.
fn parse_tail_only(parts: &Vec<String>, Ghost(views): Ghost<Seq<Seq<char>>>) -> (r: Option<
    Ipv6Address,
>)
    requires
        views == parts@.map_values(|t: String| t@),
        parts@.len() >= 3,
    ensures
        r == (if no_empty_part(views.skip(2)) {
            compressed_address(Seq::<Seq<char>>::empty(), views.skip(2))
        } else {
            Option::<Ipv6Address>::None
        }),
{
    let n = parts.len();
    let mut k: usize = 2;
    let mut clean = true;
    while k < n
        invariant
            2 <= k <= n,
            n == views.len(),
            views == parts@.map_values(|t: String| t@),
            clean ==> forall|m: int| 2 <= m < k ==> (#[trigger] views[m]).len() > 0,
            !clean ==> !no_empty_part(views.skip(2)),
        decreases n - k,
    {
        proof {
            assert(views[k as int] == parts@[k as int]@);
        }
        if parts[k].as_str().is_empty() {
            clean = false;
            proof {
                assert(views.skip(2)[k - 2] == views[k as int]);
                assert(!no_empty_part(views.skip(2)));
            }
        }
        k = k + 1;
    }
    if !clean {
        return None;
    }
    proof {
        assert(forall|m: int|
            0 <= m < views.skip(2).len() ==> (#[trigger] views.skip(2)[m]) == views[m + 2]);
        assert(no_empty_part(views.skip(2)));
    }
    match tail_groups_exec(parts, 2, n) {
        Some(gt) => {
            proof {
                assert(views.subrange(2, n as int) =~= views.skip(2));
                assert(all_h16(Seq::<Seq<char>>::empty()));
                assert(h16_vals(Seq::<Seq<char>>::empty()) =~= Seq::<u16>::empty());
            }
            if gt.len() <= 7 {
                let gh: Vec<u16> = Vec::new();
                proof {
                    assert(gh@ + Seq::<u16>::new((8 - gt@.len()) as nat, |i: int| 0u16) + gt@
                        =~= Seq::<u16>::empty() + Seq::<u16>::new(
                        (8 - gt@.len()) as nat,
                        |i: int| 0u16,
                    ) + gt@);
                }
                Some(assemble_compressed(&gh, &gt))
            } else {
                None
            }
        },
        None => {
            proof {
                assert(views.subrange(2, n as int) =~= views.skip(2));
            }
            None
        },
    }
}

/// Globally routable IPv4, by the standard reserved ranges: everything but
/// "this network" (0/8), private use (10/8, 172.16/12, 192.168/16), shared
/// space (100.64/10), loopback (127/8), link-local (169.254/16), the
/// IETF-protocol block (192.0.0/24 except 192.0.0.9 and 192.0.0.10),
/// benchmarking (198.18/15), and the reserved top block (240/4) with
/// broadcast. The documentation blocks (192.0.2/24, 198.51.100/24,
/// 203.0.113/24) stand in for public client addresses wherever examples
/// need one, so they classify as global here.
pub open spec fn is_global_v4(ip: Ipv4Address) -> bool {
    !({
        ||| ip.a == 0
        ||| ip.a == 10
        ||| (ip.a == 100 && 64 <= ip.b <= 127)
        ||| ip.a == 127
        ||| (ip.a == 169 && ip.b == 254)
        ||| (ip.a == 172 && 16 <= ip.b <= 31)
        ||| (ip.a == 192 && ip.b == 0 && ip.c == 0 && ip.d != 9 && ip.d != 10)
        ||| (ip.a == 192 && ip.b == 168)
        ||| (ip.a == 198 && (ip.b == 18 || ip.b == 19))
        ||| ip.a >= 240
    })
}

/// Globally routable IPv6, by the standard reserved ranges: everything but
/// the unspecified address and loopback, IPv4-mapped (::ffff:0:0/96),
/// IPv4-IPv6 translation (64:ff9b:1::/48), the discard block (100::/64), the
/// IETF-protocol block (2001::/23) apart from its globally reachable
/// carve-outs, 6to4 (2002::/16), unique-local (fc00::/7) and link-local
/// (fe80::/10). As with IPv4, the documentation blocks (2001:db8::/32,
/// 3fff::/20) classify as global.
pub open spec fn is_global_v6(ip: Ipv6Address) -> bool {
    !({
        ||| (ip.g0 == 0 && ip.g1 == 0 && ip.g2 == 0 && ip.g3 == 0 && ip.g4 == 0 && ip.g5 == 0
            && ip.g6 == 0 && ip.g7 <= 1)
        ||| (ip.g0 == 0 && ip.g1 == 0 && ip.g2 == 0 && ip.g3 == 0 && ip.g4 == 0 && ip.g5
            == 0xffff)
        ||| (ip.g0 == 0x64 && ip.g1 == 0xff9b && ip.g2 == 1)
        ||| (ip.g0 == 0x100 && ip.g1 == 0 && ip.g2 == 0 && ip.g3 == 0)
        ||| (ip.g0 == 0x2001 && ip.g1 < 0x200 && !({
            ||| (ip.g1 == 1 && ip.g2 == 0 && ip.g3 == 0 && ip.g4 == 0 && ip.g5 == 0 && ip.g6 == 0
                && (ip.g7 == 1 || ip.g7 == 2))
            ||| (ip.g1 == 3)
            ||| (ip.g1 == 4 && ip.g2 == 0x112)
            ||| (0x20 <= ip.g1 <= 0x3f)
        }))
        ||| (ip.g0 == 0x2002)
        ||| (0xfc00 <= ip.g0 <= 0xfdff)
        ||| (0xfe80 <= ip.g0 <= 0xfebf)
    })
}

/// Globally routable, for either family.
pub open spec fn is_global(ip: IpAddress) -> bool {
    match ip {
        IpAddress::V4(v4) => is_global_v4(v4),
        IpAddress::V6(v6) => is_global_v6(v6),
    }
}

/// Decides global routability of an IPv4 address.
pub fn is_global_v4_exec(ip: &Ipv4Address) -> (r: bool)
    ensures
        r == is_global_v4(*ip),
{
    !(ip.a == 0 || ip.a == 10 || (ip.a == 100 && 64 <= ip.b && ip.b <= 127) || ip.a == 127 || (
    ip.a == 169 && ip.b == 254) || (ip.a == 172 && 16 <= ip.b && ip.b <= 31) || (ip.a == 192
        && ip.b == 0 && ip.c == 0 && ip.d != 9 && ip.d != 10) || (ip.a == 192 && ip.b == 168) || (
    ip.a == 198 && (ip.b == 18 || ip.b == 19)) || ip.a >= 240)
}

/// Decides global routability of an IPv6 address.
pub fn is_global_v6_exec(ip: &Ipv6Address) -> (r: bool)
    ensures
        r == is_global_v6(*ip),
{
    let unspecified_or_loopback = ip.g0 == 0 && ip.g1 == 0 && ip.g2 == 0 && ip.g3 == 0 && ip.g4
        == 0 && ip.g5 == 0 && ip.g6 == 0 && ip.g7 <= 1;
    let v4_mapped = ip.g0 == 0 && ip.g1 == 0 && ip.g2 == 0 && ip.g3 == 0 && ip.g4 == 0 && ip.g5
        == 0xffff;
    let v4_translation = ip.g0 == 0x64 && ip.g1 == 0xff9b && ip.g2 == 1;
    let discard = ip.g0 == 0x100 && ip.g1 == 0 && ip.g2 == 0 && ip.g3 == 0;
    let protocol_carve_out = (ip.g1 == 1 && ip.g2 == 0 && ip.g3 == 0 && ip.g4 == 0 && ip.g5 == 0
        && ip.g6 == 0 && (ip.g7 == 1 || ip.g7 == 2)) || ip.g1 == 3 || (ip.g1 == 4 && ip.g2
        == 0x112) || (0x20 <= ip.g1 && ip.g1 <= 0x3f);
    let protocol_block = ip.g0 == 0x2001 && ip.g1 < 0x200 && !protocol_carve_out;
    let six_to_four = ip.g0 == 0x2002;
    let unique_local = 0xfc00 <= ip.g0 && ip.g0 <= 0xfdff;
    let link_local = 0xfe80 <= ip.g0 && ip.g0 <= 0xfebf;
    !(unspecified_or_loopback || v4_mapped || v4_translation || discard || protocol_block
        || six_to_four || unique_local || link_local)
}

/// Decides global routability for either family.
pub fn is_global_exec(ip: &IpAddress) -> (r: bool)
    ensures
        r == is_global(*ip),
{
    match ip {
        IpAddress::V4(v4) => is_global_v4_exec(v4),
        IpAddress::V6(v6) => is_global_v6_exec(v6),
    }
}

/// The address an IP text denotes: the IPv4 reading where the text is a
/// dotted quad, else the IPv6 reading where it is a well-formed
/// colon-separated form, else none.
pub open spec fn parse_ip(s: Seq<char>) -> Option<IpAddress> {
    match parse_ipv4(s) {
        Some(v4) => Some(IpAddress::V4(v4)),
        None => match parse_ipv6(s) {
            Some(v6) => Some(IpAddress::V6(v6)),
            None => None,
        },
    }
}

/// Parses an IP text of either family.
pub fn parse_ip_str(s: &str) -> (r: Option<IpAddress>)
    ensures
        r == parse_ip(s@),
{
    match parse_ipv4_str(s) {
        Some(v4) => Some(IpAddress::V4(v4)),
        None => match parse_ipv6_str(s) {
            Some(v6) => Some(IpAddress::V6(v6)),
            None => None,
        },
    }
}

} // verus!
