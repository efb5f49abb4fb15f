//! Text utilities the pipeline is built on: splitting a header value on a
//! separator, trimming whitespace from chain entries, and rendering a signed
//! offset as a decimal string for the response body.

use vstd::prelude::*;

verus! {

/// ASCII whitespace: what is trimmed from the ends of a chain entry.
pub open spec fn is_space(c: char) -> bool {
    c == ' ' || c == '\t' || c == '\n' || c == '\r' || c == '\u{b}' || c == '\u{c}'
}

/// What `s` splits into on `sep`: the parts in order, separators removed,
/// always exactly one part more than there are separators.
pub open spec fn split_on(s: Seq<char>, sep: char) -> Seq<Seq<char>>
    decreases s.len(),
{
    if s.len() == 0 {
        seq![Seq::<char>::empty()]
    } else {
        let rest = split_on(s.drop_last(), sep);
        if s.last() == sep {
            rest + seq![Seq::<char>::empty()]
        } else {
            rest.drop_last() + seq![rest.last().push(s.last())]
        }
    }
}

/// A split is never empty: even the empty string has one (empty) part.
pub proof fn lemma_split_on_nonempty(s: Seq<char>, sep: char)
    ensures
        split_on(s, sep).len() >= 1,
    decreases s.len(),
{
    if s.len() > 0 {
        lemma_split_on_nonempty(s.drop_last(), sep);
    }
}

fn is_space_char(c: char) -> (r: bool)
    ensures
        r == is_space(c),
{
    c == ' ' || c == '\t' || c == '\n' || c == '\r' || c == '\u{b}' || c == '\u{c}'
}

/// Splits `s` on `sep`, as the forwarded header is split on commas.
pub fn split_str(s: &str, sep: char) -> (r: Vec<String>)
    ensures
        r@.map_values(|t: String| t@) == split_on(s@, sep),
        r@.len() >= 1,
{
    let n = s.unicode_len();
    let mut parts: Vec<String> = Vec::new();
    let mut start: usize = 0;
    let mut i: usize = 0;
    proof {
        assert(s@.subrange(0, 0) =~= Seq::<char>::empty());
        assert(parts@.map_values(|t: String| t@).push(s@.subrange(0, 0))
            =~= split_on(s@.subrange(0, 0), sep));
    }
    while i < n
        invariant
            i <= n,
            start <= i,
            n == s@.len(),
            parts@.map_values(|t: String| t@).push(s@.subrange(start as int, i as int))
                == split_on(s@.subrange(0, i as int), sep),
        decreases n - i,
    {
        let ghost pre = s@.subrange(0, i as int);
        let ghost cur = s@.subrange(start as int, i as int);
        let ghost m = parts@.map_values(|t: String| t@);
        let c = s.get_char(i);
        proof {
            assert(s@.subrange(0, i + 1).drop_last() =~= pre);
            assert(s@.subrange(0, i + 1).last() == s@[i as int]);
            assert(s@.subrange(0, i + 1).len() > 0);
        }
        if c == sep {
            let part = s.substring_char(start, i).to_owned();
            parts.push(part);
            start = i + 1;
            proof {
                assert(parts@.map_values(|t: String| t@) =~= m.push(cur));
                assert(split_on(s@.subrange(0, i + 1), sep) == split_on(pre, sep) + seq![
                    Seq::<char>::empty(),
                ]);
                assert(s@.subrange(i + 1, i + 1) =~= Seq::<char>::empty());
                assert(parts@.map_values(|t: String| t@).push(
                    s@.subrange(start as int, i + 1),
                ) =~= split_on(s@.subrange(0, i + 1), sep));
            }
        } else {
            proof {
                let full = split_on(pre, sep);
                assert(full == m.push(cur));
                assert(full.drop_last() =~= m);
                assert(full.last() == cur);
                assert(cur.push(s@[i as int]) =~= s@.subrange(start as int, i + 1));
                assert(m.push(s@.subrange(start as int, i + 1)) =~= full.drop_last() + seq![
                    full.last().push(s@[i as int]),
                ]);
            }
        }
        i = i + 1;
    }
    let last = s.substring_char(start, n).to_owned();
    let ghost m = parts@.map_values(|t: String| t@);
    parts.push(last);
    proof {
        assert(s@.subrange(0, n as int) =~= s@);
        assert(parts@.map_values(|t: String| t@) =~= m.push(s@.subrange(start as int, n as int)));
    }
    parts
}

/// `s` with its leading whitespace removed.
pub open spec fn trim_start_rec(s: Seq<char>) -> Seq<char>
    decreases s.len(),
{
    if s.len() > 0 && is_space(s[0]) {
        trim_start_rec(s.drop_first())
    } else {
        s
    }
}

/// `s` with its trailing whitespace removed.
pub open spec fn trim_end_rec(s: Seq<char>) -> Seq<char>
    decreases s.len(),
{
    if s.len() > 0 && is_space(s.last()) {
        trim_end_rec(s.drop_last())
    } else {
        s
    }
}

/// `s` with whitespace removed from both ends.
pub open spec fn trim_spec(s: Seq<char>) -> Seq<char> {
    trim_end_rec(trim_start_rec(s))
}

/// Trims whitespace from both ends, as each chain entry is trimmed before it
/// is parsed.
pub fn trim_str(s: &str) -> (r: String)
    ensures
        r@ == trim_spec(s@),
{
    let n = s.unicode_len();
    let mut start: usize = 0;
    proof {
        assert(s@.skip(0) =~= s@);
    }
    while start < n && is_space_char(s.get_char(start))
        invariant
            start <= n,
            n == s@.len(),
            trim_start_rec(s@) == trim_start_rec(s@.skip(start as int)),
        decreases n - start,
    {
        proof {
            assert(s@.skip(start as int)[0] == s@[start as int]);
            assert(s@.skip(start as int).drop_first() =~= s@.skip(start + 1));
        }
        start = start + 1;
    }
    proof {
        if start == n {
            assert(s@.skip(start as int) =~= Seq::<char>::empty());
        }
        assert(trim_start_rec(s@) == s@.skip(start as int));
    }
    let mut end: usize = n;
    proof {
        assert(s@.subrange(start as int, end as int) =~= s@.skip(start as int));
    }
    while end > start && is_space_char(s.get_char(end - 1))
        invariant
            start <= end <= n,
            n == s@.len(),
            trim_start_rec(s@) == s@.skip(start as int),
            trim_end_rec(s@.skip(start as int)) == trim_end_rec(
                s@.subrange(start as int, end as int),
            ),
        decreases end,
    {
        proof {
            let t = s@.subrange(start as int, end as int);
            assert(t.last() == s@[end - 1]);
            assert(t.drop_last() =~= s@.subrange(start as int, end - 1));
        }
        end = end - 1;
    }
    proof {
        let t = s@.subrange(start as int, end as int);
        if end == start {
            assert(t =~= Seq::<char>::empty());
        }
        assert(trim_end_rec(t) == t);
    }
    s.substring_char(start, end).to_owned()
}

/// The character for one decimal digit.
pub open spec fn digit_char(d: int) -> char {
    if d == 0 {
        '0'
    } else if d == 1 {
        '1'
    } else if d == 2 {
        '2'
    } else if d == 3 {
        '3'
    } else if d == 4 {
        '4'
    } else if d == 5 {
        '5'
    } else if d == 6 {
        '6'
    } else if d == 7 {
        '7'
    } else if d == 8 {
        '8'
    } else {
        '9'
    }
}

/// The decimal digits of a non-negative number, most significant first,
/// without a sign and without leading zeros (a lone zero for 0).
pub open spec fn dec_digits(n: int) -> Seq<char>
    decreases n,
{
    if n < 10 {
        seq![digit_char(n)]
    } else {
        dec_digits(n / 10).push(digit_char(n % 10))
    }
}

/// The decimal rendering of a signed number: a minus sign for negative
/// values, then the digits.
pub open spec fn dec_string(n: int) -> Seq<char> {
    if n < 0 {
        seq!['-'] + dec_digits(-n)
    } else {
        dec_digits(n)
    }
}

fn push_dec_digits(out: &mut String, n: u32)
    ensures
        final(out)@ == old(out)@ + dec_digits(n as int),
    decreases n,
{
    if n >= 10 {
        push_dec_digits(out, n / 10);
    }
    let ghost mid = out@;
    let d = n % 10;
    if d == 0 {
        out.append("0");
        proof {
            reveal_strlit("0");
            assert("0"@ =~= seq![digit_char(0)]);
        }
    } else if d == 1 {
        out.append("1");
        proof {
            reveal_strlit("1");
            assert("1"@ =~= seq![digit_char(1)]);
        }
    } else if d == 2 {
        out.append("2");
        proof {
            reveal_strlit("2");
            assert("2"@ =~= seq![digit_char(2)]);
        }
    } else if d == 3 {
        out.append("3");
        proof {
            reveal_strlit("3");
            assert("3"@ =~= seq![digit_char(3)]);
        }
    } else if d == 4 {
        out.append("4");
        proof {
            reveal_strlit("4");
            assert("4"@ =~= seq![digit_char(4)]);
        }
    } else if d == 5 {
        out.append("5");
        proof {
            reveal_strlit("5");
            assert("5"@ =~= seq![digit_char(5)]);
        }
    } else if d == 6 {
        out.append("6");
        proof {
            reveal_strlit("6");
            assert("6"@ =~= seq![digit_char(6)]);
        }
    } else if d == 7 {
        out.append("7");
        proof {
            reveal_strlit("7");
            assert("7"@ =~= seq![digit_char(7)]);
        }
    } else if d == 8 {
        out.append("8");
        proof {
            reveal_strlit("8");
            assert("8"@ =~= seq![digit_char(8)]);
        }
    } else {
        out.append("9");
        proof {
            reveal_strlit("9");
            assert("9"@ =~= seq![digit_char(9)]);
        }
    }
    proof {
        if n >= 10 {
            assert(out@ =~= old(out)@ + dec_digits(n as int));
        } else {
            assert(mid == old(out)@);
            assert(dec_digits(n as int) == seq![digit_char(n as int)]);
            assert(out@ =~= old(out)@ + dec_digits(n as int));
        }
    }
}

/// Renders a signed number of seconds as its decimal string, exactly as the
/// success response body carries it.
pub fn decimal_string(n: i32) -> (r: String)
    ensures
        r@ == dec_string(n as int),
{
    let mut out = String::new();
    if n < 0 {
        out.append("-");
        let wide: i64 = n as i64;
        let m: u32 = (-wide) as u32;
        push_dec_digits(&mut out, m);
        proof {
            reveal_strlit("-");
            assert("-"@ =~= seq!['-']);
            assert(m as int == -(n as int));
            assert(out@ =~= seq!['-'] + dec_digits(-(n as int)));
        }
    } else {
        let m: u32 = n as u32;
        push_dec_digits(&mut out, m);
        proof {
            assert(out@ =~= dec_digits(n as int));
        }
    }
    out
}

} // verus!
