//! Character-level text handling: whitespace, trimming, splitting and the
//! decimal and dotted-quad grammars that the parsers accept.

use vstd::prelude::*;

verus! {

/// The Unicode `White_Space` property (PropList.txt), which is the set of
/// characters that `char::is_whitespace` and `str::trim` treat as blank.
pub open spec fn is_white_space(c: char) -> bool {
    let v = c as u32;
    ||| 0x09 <= v <= 0x0D
    ||| v == 0x20 || v == 0x85 || v == 0xA0 || v == 0x1680
    ||| 0x2000 <= v <= 0x200A
    ||| v == 0x2028 || v == 0x2029 || v == 0x202F || v == 0x205F || v == 0x3000
}

/// Whether `c` is a Unicode white-space character.
pub fn is_whitespace(c: char) -> (b: bool)
    ensures
        b == is_white_space(c),
{
    let v = c as u32;
    (0x09 <= v && v <= 0x0D) || v == 0x20 || v == 0x85 || v == 0xA0 || v == 0x1680 || (0x2000
        <= v && v <= 0x200A) || v == 0x2028 || v == 0x2029 || v == 0x202F || v == 0x205F || v
        == 0x3000
}

/// The characters of a string, in order.
pub fn chars_of(s: &str) -> (v: Vec<char>)
    ensures
        v@ == s@,
{
    let mut v: Vec<char> = Vec::new();
    for c in it: s.chars()
        invariant
            v@ == it.seq().take(it.index() as int),
            it.seq() == s@,
    {
        v.push(c);
    }
    v
}

/// `s` with its leading white space removed.
pub open spec fn trim_start(s: Seq<char>) -> Seq<char>
    decreases s.len(),
{
    if s.len() > 0 && is_white_space(s[0]) {
        trim_start(s.drop_first())
    } else {
        s
    }
}

/// `s` with its trailing white space removed.
pub open spec fn trim_end(s: Seq<char>) -> Seq<char>
    decreases s.len(),
{
    if s.len() > 0 && is_white_space(s.last()) {
        trim_end(s.drop_last())
    } else {
        s
    }
}

/// `s` with leading and trailing white space removed, as `str::trim` does.
pub open spec fn trim(s: Seq<char>) -> Seq<char> {
    trim_end(trim_start(s))
}

/// The bounds, within `lo..hi`, of the characters of `s[lo..hi]` that remain
/// once leading and trailing white space is removed.
pub fn trim_bounds(s: &Vec<char>, lo: usize, hi: usize) -> (r: (usize, usize))
    requires
        lo <= hi <= s.len(),
    ensures
        lo <= r.0 <= r.1 <= hi,
        s@.subrange(r.0 as int, r.1 as int) == trim(s@.subrange(lo as int, hi as int)),
{
    let mut i = lo;
    while i < hi && is_whitespace(s[i])
        invariant
            lo <= i <= hi <= s.len(),
            trim_start(s@.subrange(lo as int, hi as int)) == trim_start(
                s@.subrange(i as int, hi as int),
            ),
        decreases hi - i,
    {
        assert(s@.subrange(i as int, hi as int).drop_first() =~= s@.subrange(
            i + 1,
            hi as int,
        ));
        i = i + 1;
    }
    let mut j = hi;
    while j > i && is_whitespace(s[j - 1])
        invariant
            lo <= i <= j <= hi <= s.len(),
            trim(s@.subrange(lo as int, hi as int)) == trim_end(s@.subrange(i as int, j as int)),
        decreases j - i,
    {
        assert(s@.subrange(i as int, j as int).drop_last() =~= s@.subrange(i as int, j - 1));
        j = j - 1;
    }
    (i, j)
}

/// The index of the first occurrence of `c` in `s`.
pub open spec fn first_index(s: Seq<char>, c: char) -> Option<int>
    decreases s.len(),
{
    if s.len() == 0 {
        None
    } else if s[0] == c {
        Some(0)
    } else {
        match first_index(s.drop_first(), c) {
            Some(i) => Some(i + 1),
            None => None,
        }
    }
}

/// The index, within `s`, of the first occurrence of `c` in `s[lo..hi]`.
pub fn find_char(s: &Vec<char>, lo: usize, hi: usize, c: char) -> (r: Option<usize>)
    requires
        lo <= hi <= s.len(),
    ensures
        first_index(s@.subrange(lo as int, hi as int), c) == match r {
            Some(k) => Some(k - lo),
            None => None::<int>,
        },
        r matches Some(k) ==> lo <= k < hi && s@[k as int] == c,
{
    let mut i = lo;
    while i < hi
        invariant
            lo <= i <= hi <= s.len(),
            first_index(s@.subrange(lo as int, hi as int), c) == match first_index(
                s@.subrange(i as int, hi as int),
                c,
            ) {
                Some(k) => Some(k + (i - lo)),
                None => None::<int>,
            },
        decreases hi - i,
    {
        if s[i] == c {
            return Some(i);
        }
        assert(s@.subrange(i as int, hi as int).drop_first() =~= s@.subrange(i + 1, hi as int));
        i = i + 1;
    }
    None
}

/// The fields of `s` between occurrences of `sep`, as `str::split` yields them.
pub open spec fn split_fields(s: Seq<char>, sep: char) -> Seq<Seq<char>>
    decreases s.len(),
{
    if s.len() == 0 {
        seq![Seq::<char>::empty()]
    } else {
        let f = split_fields(s.drop_last(), sep);
        if s.last() == sep {
            f.push(Seq::<char>::empty())
        } else {
            f.update(f.len() - 1, f.last().push(s.last()))
        }
    }
}

/// `split_fields` never yields an empty list.
pub proof fn lemma_split_fields_nonempty(s: Seq<char>, sep: char)
    ensures
        split_fields(s, sep).len() >= 1,
    decreases s.len(),
{
    if s.len() > 0 {
        lemma_split_fields_nonempty(s.drop_last(), sep);
    }
}

/// The pieces of `s` that a list of bounds marks out.
pub open spec fn pieces(s: Seq<char>, bounds: Seq<(usize, usize)>) -> Seq<Seq<char>> {
    bounds.map_values(|b: (usize, usize)| s.subrange(b.0 as int, b.1 as int))
}

/// The bounds of the fields of `s[lo..hi]` separated by `sep`.
pub fn split_bounds(s: &Vec<char>, lo: usize, hi: usize, sep: char) -> (r: Vec<(usize, usize)>)
    requires
        lo <= hi <= s.len(),
    ensures
        pieces(s@, r@) == split_fields(s@.subrange(lo as int, hi as int), sep),
        forall|k: int| 0 <= k < r.len() ==> lo <= #[trigger] r@[k].0 <= r@[k].1 <= hi,
{
    let mut closed: Vec<(usize, usize)> = Vec::new();
    let mut start = lo;
    let mut i = lo;
    assert(s@.subrange(lo as int, lo as int) =~= Seq::<char>::empty());
    assert(pieces(s@, closed@).push(s@.subrange(start as int, i as int)) =~= seq![
        Seq::<char>::empty(),
    ]);
    while i < hi
        invariant
            lo <= start <= i <= hi <= s.len(),
            forall|k: int| 0 <= k < closed.len() ==> lo <= #[trigger] closed@[k].0 <= closed@[k].1 <= hi,
            pieces(s@, closed@).push(s@.subrange(start as int, i as int)) == split_fields(
                s@.subrange(lo as int, i as int),
                sep,
            ),
        decreases hi - i,
    {
        let ghost prev = s@.subrange(lo as int, i as int);
        let ghost next = s@.subrange(lo as int, i + 1);
        assert(next.drop_last() =~= prev);
        assert(next.last() == s@[i as int]);
        if s[i] == sep {
            let ghost old_closed = closed@;
            closed.push((start, i));
            assert(pieces(s@, closed@) =~= pieces(s@, old_closed).push(
                s@.subrange(start as int, i as int),
            ));
            start = i + 1;
            assert(s@.subrange(start as int, (i + 1) as int) =~= Seq::<char>::empty());
            assert(pieces(s@, closed@).push(s@.subrange(start as int, (i + 1) as int)) =~= split_fields(
                prev,
                sep,
            ).push(Seq::<char>::empty()));
        } else {
            assert(s@.subrange(start as int, i as int).push(s@[i as int]) =~= s@.subrange(
                start as int,
                i + 1,
            ));
            assert(pieces(s@, closed@).push(s@.subrange(start as int, (i + 1) as int)) =~= {
                let f = split_fields(prev, sep);
                f.update(f.len() - 1, f.last().push(s@[i as int]))
            });
        }
        i = i + 1;
    }
    let ghost old_closed = closed@;
    closed.push((start, hi));
    assert(pieces(s@, closed@) =~= pieces(s@, old_closed).push(s@.subrange(start as int, hi as int)));
    assert(pieces(s@, closed@) =~= split_fields(s@.subrange(lo as int, hi as int), sep));
    closed
}

/// Whether `c` is one of the ASCII digits `0` to `9`.
pub open spec fn is_digit(c: char) -> bool {
    0x30 <= (c as u32) <= 0x39
}

/// The value of an ASCII digit.
pub open spec fn digit_value(c: char) -> nat {
    ((c as u32) - 0x30) as nat
}

/// Whether every character of `s` is an ASCII digit.
pub open spec fn all_digits(s: Seq<char>) -> bool {
    forall|i: int| 0 <= i < s.len() ==> #[trigger] is_digit(s[i])
}

/// The number that a string of decimal digits spells.
pub open spec fn decimal_value(s: Seq<char>) -> nat
    decreases s.len(),
{
    if s.len() == 0 {
        0
    } else {
        decimal_value(s.drop_last()) * 10 + digit_value(s.last())
    }
}

/// The number that `s` spells in the grammar that `str::parse` accepts for an
/// unsigned integer: an optional `+`, then one or more ASCII digits.
pub open spec fn unsigned_literal(s: Seq<char>) -> Option<nat> {
    let digits = if s.len() > 0 && s[0] == '+' {
        s.drop_first()
    } else {
        s
    };
    if digits.len() > 0 && all_digits(digits) {
        Some(decimal_value(digits))
    } else {
        None
    }
}

/// The value of the non-empty run of digits `s[lo..hi]`, provided that it is at most `max`.
pub fn parse_digits(s: &Vec<char>, lo: usize, hi: usize, max: u32) -> (r: Option<u32>)
    requires
        lo <= hi <= s.len(),
    ensures
        ({
            let t = s@.subrange(lo as int, hi as int);
            &&& r is Some <==> (t.len() > 0 && all_digits(t) && decimal_value(t) <= max)
            &&& r is Some ==> r.unwrap() == decimal_value(t)
        }),
{
    if lo == hi {
        return None;
    }
    let mut acc: u64 = 0;
    let mut over = false;
    let mut i = lo;
    while i < hi
        invariant
            lo <= i <= hi <= s.len(),
            all_digits(s@.subrange(lo as int, i as int)),
            over ==> decimal_value(s@.subrange(lo as int, i as int)) > max,
            !over ==> acc == decimal_value(s@.subrange(lo as int, i as int)) && acc <= max,
        decreases hi - i,
    {
        let c = s[i];
        let v = c as u32;
        if v < 0x30 || v > 0x39 {
            assert(!is_digit(s@.subrange(lo as int, hi as int)[i - lo]));
            return None;
        }
        let ghost next = s@.subrange(lo as int, i + 1);
        assert(next.drop_last() =~= s@.subrange(lo as int, i as int));
        assert(next.last() == c);
        if !over {
            let d = (v - 0x30) as u64;
            acc = acc * 10 + d;
            if acc > max as u64 {
                over = true;
            }
        }
        i = i + 1;
    }
    assert(s@.subrange(lo as int, hi as int) == s@.subrange(lo as int, i as int));
    if over {
        None
    } else {
        Some(acc as u32)
    }
}

/// Parses `s[lo..hi]` as an unsigned integer no greater than `max`, in the
/// grammar of `str::parse`.
pub fn parse_unsigned(s: &Vec<char>, lo: usize, hi: usize, max: u32) -> (r: Option<u32>)
    requires
        lo <= hi <= s.len(),
    ensures
        ({
            let v = unsigned_literal(s@.subrange(lo as int, hi as int));
            &&& r is Some <==> (v is Some && v.unwrap() <= max)
            &&& r is Some ==> r.unwrap() == v.unwrap()
        }),
{
    let t = Ghost(s@.subrange(lo as int, hi as int));
    if lo < hi && s[lo] == '+' {
        assert(t@.drop_first() =~= s@.subrange(lo + 1, hi as int));
        parse_digits(s, lo + 1, hi, max)
    } else {
        parse_digits(s, lo, hi, max)
    }
}

/// The value of one dotted-decimal IPv4 group, in the grammar of
/// `Ipv4Addr::from_str`: one to three ASCII digits, without a leading zero
/// unless the group is `0` itself, and at most 255.
pub open spec fn ipv4_octet(g: Seq<char>) -> Option<u8> {
    if 1 <= g.len() <= 3 && all_digits(g) && (g.len() == 1 || g[0] != '0') && decimal_value(g)
        <= 255 {
        Some(decimal_value(g) as u8)
    } else {
        None
    }
}

/// The address that `s` spells in dotted-decimal form (`a.b.c.d`), as
/// `Ipv4Addr::from_str` reads it.
pub open spec fn ipv4_address(s: Seq<char>) -> Option<(u8, u8, u8, u8)> {
    let f = split_fields(s, '.');
    if f.len() == 4 && ipv4_octet(f[0]) is Some && ipv4_octet(f[1]) is Some && ipv4_octet(
        f[2],
    ) is Some && ipv4_octet(f[3]) is Some {
        Some(
            (
                ipv4_octet(f[0]).unwrap(),
                ipv4_octet(f[1]).unwrap(),
                ipv4_octet(f[2]).unwrap(),
                ipv4_octet(f[3]).unwrap(),
            ),
        )
    } else {
        None
    }
}

/// Parses the group `s[lo..hi]` of a dotted-decimal address.
pub fn parse_ipv4_octet(s: &Vec<char>, lo: usize, hi: usize) -> (r: Option<u8>)
    requires
        lo <= hi <= s.len(),
    ensures
        r == ipv4_octet(s@.subrange(lo as int, hi as int)),
{
    let len = hi - lo;
    if len < 1 || len > 3 {
        return None;
    }
    if len > 1 && s[lo] == '0' {
        return None;
    }
    match parse_digits(s, lo, hi, 255) {
        Some(v) => Some(v as u8),
        None => None,
    }
}

/// Parses `s[lo..hi]` as a dotted-decimal IPv4 address.
pub fn parse_ipv4(s: &Vec<char>, lo: usize, hi: usize) -> (r: Option<(u8, u8, u8, u8)>)
    requires
        lo <= hi <= s.len(),
    ensures
        r == ipv4_address(s@.subrange(lo as int, hi as int)),
{
    let f = split_bounds(s, lo, hi, '.');
    let ghost fs = split_fields(s@.subrange(lo as int, hi as int), '.');
    if f.len() != 4 {
        return None;
    }
    assert(fs[0] == s@.subrange(f@[0].0 as int, f@[0].1 as int));
    assert(fs[1] == s@.subrange(f@[1].0 as int, f@[1].1 as int));
    assert(fs[2] == s@.subrange(f@[2].0 as int, f@[2].1 as int));
    assert(fs[3] == s@.subrange(f@[3].0 as int, f@[3].1 as int));
    let a = parse_ipv4_octet(s, f[0].0, f[0].1);
    let b = parse_ipv4_octet(s, f[1].0, f[1].1);
    let c = parse_ipv4_octet(s, f[2].0, f[2].1);
    let d = parse_ipv4_octet(s, f[3].0, f[3].1);
    match (a, b, c, d) {
        (Some(a), Some(b), Some(c), Some(d)) => Some((a, b, c, d)),
        _ => None,
    }
}

/// The ASCII digit for `d` (0 to 9).
pub open spec fn digit_char(d: nat) -> char {
    if d == 0 {
        '0'
    } else if d == 1 {
        '1'
    } else if d == 2 {
        '2'
    } else if d == 3 {
        '3'
    } else if d == 4 {
        '4'
    } else if d == 5 {
        '5'
    } else if d == 6 {
        '6'
    } else if d == 7 {
        '7'
    } else if d == 8 {
        '8'
    } else {
        '9'
    }
}

/// The decimal form of `n`, without leading zeros, as `format!("{}", n)` writes it.
pub open spec fn decimal_text(n: nat) -> Seq<char>
    decreases n,
{
    if n < 10 {
        seq![digit_char(n)]
    } else {
        decimal_text(n / 10).push(digit_char(n % 10))
    }
}

/// The digit for `d` is an ASCII digit worth `d`.
proof fn lemma_digit_char(d: nat)
    requires
        d < 10,
    ensures
        is_digit(digit_char(d)),
        digit_value(digit_char(d)) == d,
        digit_char(d) == '0' <==> d == 0,
{
}

/// What the decimal form of a byte is made of: one to three ASCII digits
/// spelling it, with no leading zero.
pub proof fn lemma_decimal_text(n: nat)
    requires
        n <= 255,
    ensures
        1 <= decimal_text(n).len() <= 3,
        all_digits(decimal_text(n)),
        decimal_value(decimal_text(n)) == n,
        decimal_text(n).len() == 1 || decimal_text(n)[0] != '0',
{
    let t = decimal_text(n);
    lemma_digit_char(n % 10);
    lemma_digit_char((n / 10) % 10);
    lemma_digit_char(n / 100);
    if n < 10 {
        assert(decimal_value(t.drop_last()) == 0);
        assert(decimal_value(t) == decimal_value(t.drop_last()) * 10 + digit_value(t.last()));
    } else if n < 100 {
        let h = decimal_text(n / 10);
        assert(h == seq![digit_char(n / 10)]);
        assert(t.drop_last() == h);
        assert(decimal_value(h.drop_last()) == 0);
        assert(decimal_value(h) == decimal_value(h.drop_last()) * 10 + digit_value(h.last()));
        assert(decimal_value(h) == n / 10);
        assert(decimal_value(t) == decimal_value(h) * 10 + digit_value(t.last()));
        assert(n == (n / 10) * 10 + n % 10);
    } else {
        let h = decimal_text(n / 10);
        let hh = decimal_text(n / 100);
        assert(n / 10 / 10 == n / 100);
        assert(hh == seq![digit_char(n / 100)]);
        assert(h == hh.push(digit_char((n / 10) % 10)));
        assert(h.drop_last() == hh);
        assert(t.drop_last() == h);
        assert(decimal_value(hh.drop_last()) == 0);
        assert(decimal_value(hh) == decimal_value(hh.drop_last()) * 10 + digit_value(hh.last()));
        assert(decimal_value(hh) == n / 100);
        assert(decimal_value(h) == decimal_value(hh) * 10 + digit_value(h.last()));
        assert(decimal_value(h) == n / 10);
        assert(decimal_value(t) == decimal_value(h) * 10 + digit_value(t.last()));
        assert(n == (n / 10) * 10 + n % 10);
        assert forall|i: int| 0 <= i < t.len() implies #[trigger] is_digit(t[i]) by {
            if i == 0 {
                assert(t[0] == hh[0]);
            } else if i == 1 {
                assert(t[1] == h[1]);
            }
        }
        assert(t[0] == hh[0]);
    }
}

/// `s` holds no `c`.
pub open spec fn free_of(s: Seq<char>, c: char) -> bool {
    forall|i: int| 0 <= i < s.len() ==> s[i] != c
}

/// Splitting `x + y`, where `y` holds no separator, extends the last field of `x` by `y`.
pub proof fn lemma_split_fields_extend(x: Seq<char>, y: Seq<char>, sep: char)
    requires
        free_of(y, sep),
    ensures
        split_fields(x + y, sep) == split_fields(x, sep).update(
            split_fields(x, sep).len() - 1,
            split_fields(x, sep).last() + y,
        ),
    decreases y.len(),
{
    lemma_split_fields_nonempty(x, sep);
    if y.len() == 0 {
        assert(x + y =~= x);
        assert(split_fields(x, sep).last() + y =~= split_fields(x, sep).last());
        assert(split_fields(x, sep).update(split_fields(x, sep).len() - 1, split_fields(x, sep).last())
            =~= split_fields(x, sep));
    } else {
        let y0 = y.drop_last();
        lemma_split_fields_extend(x, y0, sep);
        assert((x + y).drop_last() =~= x + y0);
        assert((x + y).last() == y.last());
        let f = split_fields(x, sep);
        assert(f.last() + y =~= (f.last() + y0).push(y.last()));
        assert(split_fields(x + y, sep) =~= f.update(f.len() - 1, f.last() + y));
    }
}

/// Splitting `x`, then `sep`, then `y`, where neither holds a separator, gives `x` and `y`.
pub proof fn lemma_split_fields_pair(x: Seq<char>, y: Seq<char>, sep: char)
    requires
        free_of(x, sep),
        free_of(y, sep),
    ensures
        split_fields(x.push(sep) + y, sep) == seq![x, y],
{
    lemma_split_fields_extend(Seq::empty(), x, sep);
    assert(Seq::<char>::empty() + x =~= x);
    assert(split_fields(x, sep) =~= seq![x]);
    lemma_split_fields_extend(x.push(sep), y, sep);
    assert(x.push(sep).drop_last() =~= x);
    assert(split_fields(x.push(sep), sep) =~= seq![x, Seq::<char>::empty()]);
    assert(Seq::<char>::empty() + y =~= y);
}

/// Splitting `x + sep + y`, where `y` holds no separator, adds `y` as a field.
pub proof fn lemma_split_fields_push(x: Seq<char>, y: Seq<char>, sep: char)
    requires
        free_of(y, sep),
    ensures
        split_fields(x.push(sep) + y, sep) == split_fields(x, sep).push(y),
{
    lemma_split_fields_extend(x.push(sep), y, sep);
    assert(x.push(sep).drop_last() =~= x);
    assert(Seq::<char>::empty() + y =~= y);
}

/// The first `c` in `x + y`, where `x` holds none, is the first `c` of `y`, shifted.
pub proof fn lemma_first_index_after(x: Seq<char>, y: Seq<char>, c: char)
    requires
        free_of(x, c),
    ensures
        first_index(x + y, c) == match first_index(y, c) {
            Some(i) => Some(i + x.len()),
            None => None::<int>,
        },
    decreases x.len(),
{
    if x.len() == 0 {
        assert(x + y =~= y);
    } else {
        assert((x + y).drop_first() =~= x.drop_first() + y);
        assert((x + y)[0] == x[0]);
        lemma_first_index_after(x.drop_first(), y, c);
    }
}

/// A string that starts and ends with a non-blank character is its own trim.
pub proof fn lemma_trim_unchanged(s: Seq<char>)
    requires
        s.len() > 0,
        !is_white_space(s[0]),
        !is_white_space(s.last()),
    ensures
        trim(s) == s,
{
}

/// A run of digits holds no `.`, `/` or `+`.
pub proof fn lemma_digits_free(s: Seq<char>)
    requires
        all_digits(s),
    ensures
        free_of(s, '.'),
        free_of(s, '/'),
        free_of(s, '+'),
{
    assert forall|i: int| 0 <= i < s.len() implies s[i] != '.' && s[i] != '/' && s[i] != '+' by {
        assert(is_digit(s[i]));
    }
}

/// Joining two strings that hold no `c` gives one that holds none.
pub proof fn lemma_free_concat(x: Seq<char>, y: Seq<char>, c: char)
    requires
        free_of(x, c),
        free_of(y, c),
    ensures
        free_of(x + y, c),
{
    assert forall|i: int| 0 <= i < (x + y).len() implies (x + y)[i] != c by {
        if i < x.len() {
            assert((x + y)[i] == x[i]);
        } else {
            assert((x + y)[i] == y[i - x.len()]);
        }
    }
}

} // verus!
