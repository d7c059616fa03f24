//! Plain text handling: splitting on a separator and decimal integers.
use vstd::prelude::*;

verus! {

/// The pieces that `str::split` with a single-character separator yields:
/// the maximal runs between separators, one more piece than there are separators.
pub open spec fn split_seq(s: Seq<char>, sep: char) -> Seq<Seq<char>>
    decreases s.len(),
{
    if s.len() == 0 {
        seq![Seq::<char>::empty()]
    } else {
        let rest = split_seq(s.drop_last(), sep);
        if s.last() == sep {
            rest.push(Seq::<char>::empty())
        } else {
            rest.update(rest.len() - 1, rest.last().push(s.last()))
        }
    }
}

/// There is always at least one piece.
pub proof fn lemma_split_nonempty(s: Seq<char>, sep: char)
    ensures
        split_seq(s, sep).len() >= 1,
    decreases s.len(),
{
    if s.len() > 0 {
        lemma_split_nonempty(s.drop_last(), sep);
    }
}

/// The characters of a string, in order.
pub fn chars_of(s: &str) -> (out: Vec<char>)
    ensures
        out@ == s@,
{
    broadcast use vstd::string::axiom_spec_iter;

    let mut out: Vec<char> = Vec::new();
    for c in it: s.chars()
        invariant
            it.seq() == s@,
            out@ == s@.take(it.index() as int),
    {
        out.push(c);
    }
    assert(out@ =~= s@);
    out
}

/// The character sequences held by a list of pieces.
pub open spec fn views_of(v: Seq<Vec<char>>) -> Seq<Seq<char>> {
    Seq::new(v.len(), |i: int| v[i]@)
}

/// Splits `s` at every `sep`, as `str::split` does with a character pattern.
pub fn split_chars(s: &Vec<char>, sep: char) -> (out: Vec<Vec<char>>)
    ensures
        views_of(out@) == split_seq(s@, sep),
{
    let mut done: Vec<Vec<char>> = Vec::new();
    let mut cur: Vec<char> = Vec::new();
    let mut i: usize = 0;
    assert(s@.take(0) =~= Seq::<char>::empty());
    assert(views_of(done@).push(cur@) =~= seq![Seq::<char>::empty()]);
    while i < s.len()
        invariant
            i <= s.len(),
            split_seq(s@.take(i as int), sep) == views_of(done@).push(cur@),
        decreases s.len() - i,
    {
        let c = s[i];
        let ghost before = views_of(done@).push(cur@);
        assert(s@.take(i + 1).drop_last() =~= s@.take(i as int));
        if c == sep {
            let finished = cur;
            done.push(finished);
            cur = Vec::new();
            assert(views_of(done@).push(cur@) =~= before.push(Seq::<char>::empty()));
        } else {
            cur.push(c);
            assert(views_of(done@).push(cur@) =~= before.update(before.len() - 1, before.last().push(c)));
        }
        i = i + 1;
    }
    assert(s@.take(s.len() as int) =~= s@);
    let ghost before = views_of(done@).push(cur@);
    done.push(cur);
    assert(views_of(done@) =~= before);
    done
}

/// Why a text is not an unsigned integer (the kinds of `std::num::ParseIntError`
/// that an unsigned decimal parse can give).
#[derive(Clone, Copy, Debug, PartialEq, Eq, Structural)]
pub enum IntErrorKind {
    /// The text is empty.
    Empty,
    /// A character other than a decimal digit (after an optional leading `+`).
    InvalidDigit,
    /// The value is larger than the target type's maximum.
    PosOverflow,
}

pub open spec fn is_digit(c: char) -> bool {
    '0' <= c && c <= '9'
}

pub open spec fn digit_value(c: char) -> int {
    c as int - '0' as int
}

/// Reads decimal digits from left to right: the first non-digit gives
/// `InvalidDigit`, the first prefix whose value exceeds `max` gives `PosOverflow`.
pub open spec fn scan_digits(ds: Seq<char>, max: int) -> Result<int, IntErrorKind>
    decreases ds.len(),
{
    if ds.len() == 0 {
        Ok(0)
    } else {
        match scan_digits(ds.drop_last(), max) {
            Err(e) => Err(e),
            Ok(acc) => if !is_digit(ds.last()) {
                Err(IntErrorKind::InvalidDigit)
            } else if acc * 10 + digit_value(ds.last()) > max {
                Err(IntErrorKind::PosOverflow)
            } else {
                Ok(acc * 10 + digit_value(ds.last()))
            },
        }
    }
}

/// An unsigned decimal integer no larger than `max`, with an optional leading `+`,
/// as the standard library's `FromStr` for unsigned integers reads it.
pub open spec fn parse_uint_spec(s: Seq<char>, max: int) -> Result<int, IntErrorKind> {
    if s.len() == 0 {
        Err(IntErrorKind::Empty)
    } else if s[0] == '+' {
        if s.len() == 1 {
            Err(IntErrorKind::InvalidDigit)
        } else {
            scan_digits(s.drop_first(), max)
        }
    } else {
        scan_digits(s, max)
    }
}

proof fn lemma_scan_bounded(ds: Seq<char>, max: int)
    requires
        max >= 0,
    ensures
        scan_digits(ds, max) matches Ok(v) ==> 0 <= v <= max,
    decreases ds.len(),
{
    if ds.len() > 0 {
        lemma_scan_bounded(ds.drop_last(), max);
    }
}

/// Parses an unsigned decimal integer no larger than `max`.
pub fn parse_uint(s: &Vec<char>, max: u32) -> (r: Result<u32, IntErrorKind>)
    ensures
        match r {
            Ok(v) => parse_uint_spec(s@, max as int) == Ok::<int, IntErrorKind>(v as int),
            Err(e) => parse_uint_spec(s@, max as int) == Err::<int, IntErrorKind>(e),
        },
{
    if s.len() == 0 {
        return Err(IntErrorKind::Empty);
    }
    let start: usize = if s[0] == '+' {
        if s.len() == 1 {
            return Err(IntErrorKind::InvalidDigit);
        }
        1
    } else {
        0
    };
    let ghost ds = s@.subrange(start as int, s.len() as int);
    assert(start == 1 ==> ds =~= s@.drop_first());
    assert(start == 0 ==> ds =~= s@);
    let mut acc: u64 = 0;
    let mut i: usize = start;
    assert(ds.take(0) =~= Seq::<char>::empty());
    assert(parse_uint_spec(s@, max as int) == scan_digits(ds, max as int));
    while i < s.len()
        invariant
            start <= i <= s.len(),
            ds == s@.subrange(start as int, s.len() as int),
            parse_uint_spec(s@, max as int) == scan_digits(ds, max as int),
            scan_digits(ds.take(i - start), max as int) == Ok::<int, IntErrorKind>(acc as int),
            acc <= max,
        decreases s.len() - i,
    {
        let c = s[i];
        assert(ds.take(i + 1 - start).drop_last() =~= ds.take(i - start));
        assert(ds.take(i + 1 - start).last() == c);
        if !('0' <= c && c <= '9') {
            assert(scan_digits(ds.take(i + 1 - start), max as int) == Err::<int, IntErrorKind>(
                IntErrorKind::InvalidDigit,
            ));
            proof { lemma_scan_prefix_err(ds, (i + 1 - start) as int, max as int); }
            return Err(IntErrorKind::InvalidDigit);
        }
        let d: u64 = (c as u32 - '0' as u32) as u64;
        let next: u64 = acc * 10 + d;
        if next > max as u64 {
            proof { lemma_scan_prefix_err(ds, (i + 1 - start) as int, max as int); }
            return Err(IntErrorKind::PosOverflow);
        }
        acc = next;
        i = i + 1;
    }
    assert(ds.take(s.len() - start) =~= ds);
    Ok(acc as u32)
}

/// Once a prefix of the digits fails, the whole text fails the same way.
proof fn lemma_scan_prefix_err(ds: Seq<char>, k: int, max: int)
    requires
        0 <= k <= ds.len(),
        scan_digits(ds.take(k), max) is Err,
    ensures
        scan_digits(ds, max) == scan_digits(ds.take(k), max),
    decreases ds.len() - k,
{
    if k < ds.len() {
        assert(ds.take(k + 1).drop_last() =~= ds.take(k));
        lemma_scan_prefix_err(ds, k + 1, max);
    } else {
        assert(ds.take(k) =~= ds);
    }
}

/// Parses every piece in order; the first piece that is not an integer no larger
/// than `max` decides the error.
pub open spec fn parse_each(pieces: Seq<Seq<char>>, max: int) -> Result<Seq<int>, IntErrorKind>
    decreases pieces.len(),
{
    if pieces.len() == 0 {
        Ok(Seq::<int>::empty())
    } else {
        match parse_each(pieces.drop_last(), max) {
            Err(e) => Err(e),
            Ok(vs) => match parse_uint_spec(pieces.last(), max) {
                Err(e) => Err(e),
                Ok(v) => Ok(vs.push(v)),
            },
        }
    }
}

proof fn lemma_parse_each_prefix_err(pieces: Seq<Seq<char>>, k: int, max: int)
    requires
        0 <= k <= pieces.len(),
        parse_each(pieces.take(k), max) is Err,
    ensures
        parse_each(pieces, max) == parse_each(pieces.take(k), max),
    decreases pieces.len() - k,
{
    if k < pieces.len() {
        assert(pieces.take(k + 1).drop_last() =~= pieces.take(k));
        lemma_parse_each_prefix_err(pieces, k + 1, max);
    } else {
        assert(pieces.take(k) =~= pieces);
    }
}

/// Parses every piece as an unsigned integer no larger than `max` (at most 255), in order.
pub fn parse_each_u8(pieces: &Vec<Vec<char>>, max: u8) -> (r: Result<Vec<u8>, IntErrorKind>)
    ensures
        match r {
            Ok(vs) => parse_each(views_of(pieces@), max as int) == Ok::<Seq<int>, IntErrorKind>(
                Seq::new(vs@.len(), |j: int| vs@[j] as int),
            ),
            Err(e) => parse_each(views_of(pieces@), max as int) == Err::<Seq<int>, IntErrorKind>(e),
        },
{
    let ghost ps = views_of(pieces@);
    let mut out: Vec<u8> = Vec::new();
    let mut i: usize = 0;
    assert(ps.take(0) =~= Seq::<Seq<char>>::empty());
    assert(Seq::new(out@.len(), |j: int| out@[j] as int) =~= Seq::<int>::empty());
    while i < pieces.len()
        invariant
            i <= pieces.len(),
            ps == views_of(pieces@),
            parse_each(ps.take(i as int), max as int) == Ok::<Seq<int>, IntErrorKind>(
                Seq::new(out@.len(), |j: int| out@[j] as int),
            ),
        decreases pieces.len() - i,
    {
        assert(ps.take(i + 1).drop_last() =~= ps.take(i as int));
        assert(ps.take(i + 1).last() == pieces@[i as int]@);
        match parse_uint(&pieces[i], max as u32) {
            Err(e) => {
                proof { lemma_parse_each_prefix_err(ps, i + 1, max as int); }
                return Err(e);
            },
            Ok(v) => {
                proof {
                    lemma_scan_bounded(pieces@[i as int]@, max as int);
                    lemma_scan_bounded(pieces@[i as int]@.drop_first(), max as int);
                }
                let ghost old_vals = Seq::new(out@.len(), |j: int| out@[j] as int);
                out.push(v as u8);
                assert(Seq::new(out@.len(), |j: int| out@[j] as int) =~= old_vals.push(v as int));
            },
        }
        i = i + 1;
    }
    assert(ps.take(pieces.len() as int) =~= ps);
    Ok(out)
}

/// The digit character for `d` in `0..10`.
pub open spec fn digit_char(d: int) -> char {
    (d + '0' as int) as char
}

/// The decimal rendering of `n`, without sign or leading zeros.
pub open spec fn decimal(n: nat) -> Seq<char>
    decreases n,
{
    if n < 10 {
        seq![digit_char(n as int)]
    } else {
        decimal(n / 10).push(digit_char((n % 10) as int))
    }
}

proof fn lemma_digit_char(d: int)
    requires
        0 <= d < 10,
    ensures
        is_digit(digit_char(d)),
        digit_value(digit_char(d)) == d,
        digit_char(d) != '+',
{
}

/// Every character of a decimal rendering is a digit.
pub proof fn lemma_decimal_digits(n: nat)
    ensures
        decimal(n).len() >= 1,
        forall|j: int| 0 <= j < decimal(n).len() ==> is_digit(#[trigger] decimal(n)[j]),
    decreases n,
{
    if n < 10 {
        lemma_digit_char(n as int);
    } else {
        lemma_decimal_digits(n / 10);
        lemma_digit_char((n % 10) as int);
    }
}

/// Reading back a decimal rendering gives the number.
pub proof fn lemma_scan_decimal(n: nat, max: int)
    requires
        n <= max,
    ensures
        scan_digits(decimal(n), max) == Ok::<int, IntErrorKind>(n as int),
    decreases n,
{
    if n < 10 {
        lemma_digit_char(n as int);
        assert(decimal(n).drop_last() =~= Seq::<char>::empty());
        assert(scan_digits(Seq::<char>::empty(), max) == Ok::<int, IntErrorKind>(0));
    } else {
        lemma_scan_decimal(n / 10, max);
        lemma_digit_char((n % 10) as int);
        assert((n / 10) * 10 + n % 10 == n) by (nonlinear_arith);
        assert(decimal(n).drop_last() =~= decimal(n / 10));
    }
}

/// Parsing a decimal rendering gives the number back.
pub proof fn lemma_parse_decimal(n: nat, max: int)
    requires
        n <= max,
    ensures
        parse_uint_spec(decimal(n), max) == Ok::<int, IntErrorKind>(n as int),
{
    lemma_scan_decimal(n, max);
    lemma_decimal_digits(n);
    assert(is_digit(decimal(n)[0]));
}

/// Appending text free of the separator extends the last piece.
pub proof fn lemma_split_append(s: Seq<char>, t: Seq<char>, sep: char)
    requires
        forall|j: int| 0 <= j < t.len() ==> t[j] != sep,
    ensures
        split_seq(s + t, sep) == split_seq(s, sep).update(
            split_seq(s, sep).len() - 1,
            split_seq(s, sep).last() + t,
        ),
    decreases t.len(),
{
    lemma_split_nonempty(s, sep);
    if t.len() == 0 {
        assert(s + t =~= s);
        assert(split_seq(s, sep).last() + t =~= split_seq(s, sep).last());
        assert(split_seq(s, sep).update(split_seq(s, sep).len() - 1, split_seq(s, sep).last())
            =~= split_seq(s, sep));
    } else {
        let t0 = t.drop_last();
        lemma_split_append(s, t0, sep);
        assert((s + t).drop_last() =~= s + t0);
        assert((s + t).last() == t.last());
        assert(split_seq(s, sep).last() + t0 + seq![t.last()] =~= split_seq(s, sep).last() + t);
        assert((split_seq(s, sep).last() + t0).push(t.last()) =~= split_seq(s, sep).last() + t);
        assert(split_seq(s + t, sep) =~= split_seq(s, sep).update(
            split_seq(s, sep).len() - 1,
            split_seq(s, sep).last() + t,
        ));
    }
}

/// Text free of the separator is a single piece.
pub proof fn lemma_split_single(a: Seq<char>, sep: char)
    requires
        forall|j: int| 0 <= j < a.len() ==> a[j] != sep,
    ensures
        split_seq(a, sep) == seq![a],
{
    lemma_split_append(Seq::<char>::empty(), a, sep);
    assert(Seq::<char>::empty() + a =~= a);
    assert(split_seq(Seq::<char>::empty(), sep).update(0, Seq::<char>::empty() + a) =~= seq![a]);
}

/// Joining separator-free pieces with the separator and splitting again gives the pieces back.
pub proof fn lemma_split_join_one_more(s: Seq<char>, b: Seq<char>, sep: char)
    requires
        forall|j: int| 0 <= j < b.len() ==> b[j] != sep,
    ensures
        split_seq(s.push(sep) + b, sep) == split_seq(s, sep).push(b),
{
    lemma_split_append(s.push(sep), b, sep);
    assert(s.push(sep).drop_last() =~= s);
    let base = split_seq(s, sep).push(Seq::<char>::empty());
    assert(split_seq(s.push(sep), sep) == base);
    assert(Seq::<char>::empty() + b =~= b);
    assert(base.update(base.len() - 1, base.last() + b) =~= split_seq(s, sep).push(b));
}

/// A decimal rendering holds no character other than digits.
pub proof fn lemma_decimal_free_of(n: nat, sep: char)
    requires
        !is_digit(sep),
    ensures
        forall|j: int| 0 <= j < decimal(n).len() ==> decimal(n)[j] != sep,
{
    lemma_decimal_digits(n);
}

} // verus!
