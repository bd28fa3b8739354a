//! Byte-level text helpers shared by every part of the wire protocol:
//! bounded lines, whitespace trimming, splitting at a separator, and
//! rendering and reading unsigned numbers.
use vstd::prelude::*;
use vstd::string::StringSliceAdditionalSpecFns;

verus! {

/// Line terminator of every control line, on both channels.
pub open spec fn crlf() -> Seq<u8> {
    seq![13u8, 10u8]
}

/// Whitespace as `char::is_whitespace` counts it in the ASCII range.
pub open spec fn is_ws(b: u8) -> bool {
    b == 32 || (9 <= b && b <= 13)
}

pub open spec fn trim_start(s: Seq<u8>) -> Seq<u8>
    decreases s.len(),
{
    if s.len() > 0 && is_ws(s[0]) {
        trim_start(s.drop_first())
    } else {
        s
    }
}

pub open spec fn trim_end(s: Seq<u8>) -> Seq<u8>
    decreases s.len(),
{
    if s.len() > 0 && is_ws(s.last()) {
        trim_end(s.drop_last())
    } else {
        s
    }
}

/// `s` without leading and trailing whitespace.
pub open spec fn trim(s: Seq<u8>) -> Seq<u8> {
    trim_end(trim_start(s))
}

/// Position of the first `b` in `s`.
pub open spec fn index_of(s: Seq<u8>, b: u8) -> Option<int>
    decreases s.len(),
{
    if s.len() == 0 {
        None
    } else if s[0] == b {
        Some(0)
    } else {
        match index_of(s.drop_first(), b) {
            Some(i) => Some(i + 1),
            None => None,
        }
    }
}

/// The parts before and after the first `b` in `s`.
pub open spec fn split_first(s: Seq<u8>, b: u8) -> Option<(Seq<u8>, Seq<u8>)> {
    match index_of(s, b) {
        Some(i) => Some((s.subrange(0, i), s.subrange(i + 1, s.len() as int))),
        None => None,
    }
}

pub open spec fn is_digit(b: u8) -> bool {
    48 <= b && b <= 57
}

pub open spec fn all_digits(s: Seq<u8>) -> bool {
    forall|i: int| 0 <= i < s.len() ==> is_digit(#[trigger] s[i])
}

/// The number that a string of decimal digits spells.
pub open spec fn digits_value(s: Seq<u8>) -> nat
    decreases s.len(),
{
    if s.len() == 0 {
        0
    } else {
        digits_value(s.drop_last()) * 10 + (s.last() - 48) as nat
    }
}

/// What `str::parse` gives for an unsigned integer type without a bound:
/// an optional `+`, then one or more decimal digits.
pub open spec fn parse_nat(s: Seq<u8>) -> Option<nat> {
    let d = if s.len() > 0 && s[0] == 43 {
        s.drop_first()
    } else {
        s
    };
    if d.len() > 0 && all_digits(d) {
        Some(digits_value(d))
    } else {
        None
    }
}

/// `parse_nat`, kept only where the value is at most `max`.
pub open spec fn parse_bounded(s: Seq<u8>, max: nat) -> Option<nat> {
    match parse_nat(s) {
        Some(v) => if v <= max {
            Some(v)
        } else {
            None
        },
        None => None,
    }
}

/// The digit for `d` in a base up to sixteen, in lower case.
pub open spec fn digit_char(d: nat) -> u8 {
    if d < 10 {
        (48 + d) as u8
    } else {
        (87 + d) as u8
    }
}

/// `n` written in base `base`, most significant digit first, without
/// leading zeros (`0` is a single digit).
pub open spec fn num_text(n: nat, base: nat) -> Seq<u8>
    recommends
        2 <= base <= 16,
    decreases n
        via num_text_decreases

{
    if base < 2 || n < base {
        seq![digit_char(n)]
    } else {
        num_text(n / base, base).push(digit_char(n % base))
    }
}

#[via_fn]
proof fn num_text_decreases(n: nat, base: nat) {
    if !(base < 2 || n < base) {
        assert(n / base < n) by (nonlinear_arith)
            requires
                base >= 2,
                n >= base,
        ;
    }
}

pub open spec fn dec_text(n: nat) -> Seq<u8> {
    num_text(n, 10)
}

/// Appends `s` to `out`.
pub fn append_bytes(out: &mut Vec<u8>, s: &[u8])
    ensures
        final(out)@ == old(out)@ + s@,
{
    let mut i: usize = 0;
    while i < s.len()
        invariant
            i <= s@.len(),
            out@ == old(out)@ + s@.subrange(0, i as int),
        decreases s@.len() - i,
    {
        out.push(s[i]);
        i = i + 1;
        assert(out@ =~= old(out)@ + s@.subrange(0, i as int));
    }
    assert(s@.subrange(0, s@.len() as int) =~= s@);
}

/// How many bytes a read of one line takes from `s` when it may take at
/// most `limit`: through the first line feed if that lies within the
/// limit, else as many as the limit and `s` allow.
pub open spec fn line_len(s: Seq<u8>, limit: nat) -> nat {
    match index_of(s, 10) {
        Some(i) => if i + 1 <= limit {
            (i + 1) as nat
        } else {
            limit
        },
        None => if s.len() <= limit {
            s.len()
        } else {
            limit
        },
    }
}

/// The length of the first line of `s`, cut at `limit` bytes.
pub fn bounded_line_len(s: &[u8], limit: usize) -> (r: usize)
    ensures
        r == line_len(s@, limit as nat),
        r <= s@.len(),
{
    proof {
        lemma_index_of_bounds(s@, 10);
    }
    match find_byte(s, 10) {
        Some(i) => if i < limit {
            i + 1
        } else {
            limit
        },
        None => if s.len() <= limit {
            s.len()
        } else {
            limit
        },
    }
}

/// A fresh vector holding `s[lo..hi]`.
pub fn copy_range(s: &[u8], lo: usize, hi: usize) -> (r: Vec<u8>)
    requires
        lo <= hi <= s@.len(),
    ensures
        r@ == s@.subrange(lo as int, hi as int),
{
    let mut r: Vec<u8> = Vec::new();
    append_bytes(&mut r, &s[lo..hi]);
    r
}

/// Whether two byte strings are equal.
pub fn bytes_eq(a: &[u8], b: &[u8]) -> (r: bool)
    ensures
        r == (a@ == b@),
{
    if a.len() != b.len() {
        return false;
    }
    let mut i: usize = 0;
    while i < a.len()
        invariant
            i <= a@.len(),
            a@.len() == b@.len(),
            forall|j: int| 0 <= j < i ==> a@[j] == b@[j],
        decreases a@.len() - i,
    {
        if a[i] != b[i] {
            return false;
        }
        i = i + 1;
    }
    assert(a@ =~= b@);
    true
}

pub fn is_ws_byte(b: u8) -> (r: bool)
    ensures
        r == is_ws(b),
{
    b == 32 || (9 <= b && b <= 13)
}

proof fn lemma_trim_start_from(s: Seq<u8>, i: int)
    requires
        0 <= i <= s.len(),
        forall|j: int| 0 <= j < i ==> is_ws(#[trigger] s[j]),
    ensures
        trim_start(s) == trim_start(s.subrange(i, s.len() as int)),
    decreases i,
{
    if i > 0 {
        assert(s.drop_first() =~= s.subrange(1, s.len() as int));
        lemma_trim_start_from(s.drop_first(), i - 1);
        assert(s.drop_first().subrange(i - 1, s.drop_first().len() as int) =~= s.subrange(
            i,
            s.len() as int,
        ));
    } else {
        assert(s.subrange(0, s.len() as int) =~= s);
    }
}

proof fn lemma_trim_end_to(s: Seq<u8>, k: int)
    requires
        0 <= k <= s.len(),
        forall|j: int| k <= j < s.len() ==> is_ws(#[trigger] s[j]),
    ensures
        trim_end(s) == trim_end(s.subrange(0, k)),
    decreases s.len() - k,
{
    if k < s.len() {
        lemma_trim_end_to(s.drop_last(), k);
        assert(s.drop_last().subrange(0, k) =~= s.subrange(0, k));
    } else {
        assert(s.subrange(0, k) =~= s);
    }
}

/// `s` without leading and trailing whitespace.
pub fn trimmed(s: &[u8]) -> (r: Vec<u8>)
    ensures
        r@ == trim(s@),
{
    let mut lo: usize = 0;
    while lo < s.len() && is_ws_byte(s[lo])
        invariant
            lo <= s@.len(),
            forall|j: int| 0 <= j < lo ==> is_ws(#[trigger] s@[j]),
        decreases s@.len() - lo,
    {
        lo = lo + 1;
    }
    proof {
        lemma_trim_start_from(s@, lo as int);
    }
    let ghost rest = s@.subrange(lo as int, s@.len() as int);
    assert(trim_start(rest) == rest);
    let mut hi: usize = s.len();
    while hi > lo && is_ws_byte(s[hi - 1])
        invariant
            lo <= hi <= s@.len(),
            forall|j: int| hi <= j < s@.len() ==> is_ws(#[trigger] s@[j]),
        decreases hi,
    {
        hi = hi - 1;
    }
    proof {
        lemma_trim_end_to(rest, hi - lo);
        assert(rest.subrange(0, hi - lo) =~= s@.subrange(lo as int, hi as int));
    }
    copy_range(s, lo, hi)
}

/// Position of the first `b` in `s`.
pub fn find_byte(s: &[u8], b: u8) -> (r: Option<usize>)
    ensures
        match r {
            Some(i) => index_of(s@, b) == Some(i as int),
            None => index_of(s@, b) is None,
        },
{
    let mut i: usize = 0;
    while i < s.len()
        invariant
            i <= s@.len(),
            forall|j: int| 0 <= j < i ==> s@[j] != b,
        decreases s@.len() - i,
    {
        if s[i] == b {
            proof {
                lemma_index_of_first(s@, b, i as int);
            }
            return Some(i);
        }
        i = i + 1;
    }
    proof {
        lemma_index_of_none(s@, b);
    }
    None
}

proof fn lemma_index_of_first(s: Seq<u8>, b: u8, i: int)
    requires
        0 <= i < s.len(),
        s[i] == b,
        forall|j: int| 0 <= j < i ==> s[j] != b,
    ensures
        index_of(s, b) == Some(i),
    decreases i,
{
    if i > 0 {
        lemma_index_of_first(s.drop_first(), b, i - 1);
    }
}

/// A byte that `s` lacks is not found in it.
pub proof fn lemma_index_of_none(s: Seq<u8>, b: u8)
    requires
        forall|j: int| 0 <= j < s.len() ==> s[j] != b,
    ensures
        index_of(s, b) is None,
    decreases s.len(),
{
    if s.len() > 0 {
        lemma_index_of_none(s.drop_first(), b);
    }
}

/// Where `index_of` finds a byte, it is there and nowhere before.
pub proof fn lemma_index_of_bounds(s: Seq<u8>, b: u8)
    ensures
        match index_of(s, b) {
            Some(i) => 0 <= i < s.len() && s[i] == b && forall|j: int| 0 <= j < i ==> s[j] != b,
            None => forall|j: int| 0 <= j < s.len() ==> s[j] != b,
        },
    decreases s.len(),
{
    if s.len() > 0 {
        lemma_index_of_bounds(s.drop_first(), b);
        if s[0] != b {
            match index_of(s.drop_first(), b) {
                Some(i) => {
                    assert forall|j: int| 0 <= j < i + 1 implies s[j] != b by {
                        if j > 0 {
                            assert(s[j] == s.drop_first()[j - 1]);
                        }
                    }
                },
                None => {
                    assert forall|j: int| 0 <= j < s.len() implies s[j] != b by {
                        if j > 0 {
                            assert(s[j] == s.drop_first()[j - 1]);
                        }
                    }
                },
            }
        }
    }
}

/// The parts of `s` before and after its first `b`.
pub fn split_once(s: &[u8], b: u8) -> (r: Option<(Vec<u8>, Vec<u8>)>)
    ensures
        match r {
            Some((x, y)) => split_first(s@, b) == Some((x@, y@)),
            None => split_first(s@, b) is None,
        },
{
    match find_byte(s, b) {
        Some(i) => {
            proof {
                lemma_index_of_bounds(s@, b);
            }
            let n = s.len();
            assert(i < n);
            Some((copy_range(s, 0, i), copy_range(s, i + 1, n)))
        },
        None => None,
    }
}

/// The two parts of `s` around its one space, where it has exactly one.
pub open spec fn two_args(s: Seq<u8>) -> Option<(Seq<u8>, Seq<u8>)> {
    match split_first(s, 32) {
        Some((a, b)) => if index_of(b, 32) is None {
            Some((a, b))
        } else {
            None
        },
        None => None,
    }
}

/// Splits `arg` into the two words around its only space; `None` where it
/// has no space or more than one.
pub fn split_two_arg(arg: &[u8]) -> (r: Option<(Vec<u8>, Vec<u8>)>)
    ensures
        match r {
            Some((a, b)) => two_args(arg@) == Some((a@, b@)),
            None => two_args(arg@) is None,
        },
{
    match split_once(arg, 32) {
        Some((a, b)) => match find_byte(b.as_slice(), 32) {
            None => Some((a, b)),
            Some(_) => None,
        },
        None => None,
    }
}

proof fn lemma_digits_value_prefix(s: Seq<u8>, i: int)
    requires
        0 <= i <= s.len(),
        all_digits(s),
    ensures
        digits_value(s.subrange(0, i)) <= digits_value(s),
    decreases s.len() - i,
{
    if i < s.len() {
        lemma_digits_value_prefix(s.drop_last(), i);
        assert(s.drop_last().subrange(0, i) =~= s.subrange(0, i));
        assert(is_digit(s[s.len() - 1]));
    } else {
        assert(s.subrange(0, i) =~= s);
    }
}

/// The number that `s` spells as `str::parse::<u64>` reads it.
pub fn parse_u64(s: &[u8]) -> (r: Option<u64>)
    ensures
        match r {
            Some(v) => parse_bounded(s@, u64::MAX as nat) == Some(v as nat),
            None => parse_bounded(s@, u64::MAX as nat) is None,
        },
{
    let start: usize = if s.len() > 0 && s[0] == 43 {
        1
    } else {
        0
    };
    let ghost d = if s@.len() > 0 && s@[0] == 43 {
        s@.drop_first()
    } else {
        s@
    };
    assert(d =~= s@.subrange(start as int, s@.len() as int));
    if start >= s.len() {
        assert(d.len() == 0);
        return None;
    }
    let mut v: u64 = 0;
    let mut i: usize = start;
    while i < s.len()
        invariant
            start <= i <= s@.len(),
            d == s@.subrange(start as int, s@.len() as int),
            d == (if s@.len() > 0 && s@[0] == 43 {
                s@.drop_first()
            } else {
                s@
            }),
            forall|j: int| start <= j < i ==> is_digit(#[trigger] s@[j]),
            v as nat == digits_value(s@.subrange(start as int, i as int)),
        decreases s@.len() - i,
    {
        let c = s[i];
        if c < 48 || c > 57 {
            assert(d[i - start] == s@[i as int]);
            assert(!is_digit(d[i - start]));
            assert(!all_digits(d));
            return None;
        }
        let ghost prev = s@.subrange(start as int, i as int);
        let ghost next = s@.subrange(start as int, i + 1);
        assert(next.drop_last() =~= prev);
        if v > 1844674407370955161 || (v == 1844674407370955161 && c > 53) {
            // The digits so far already spell more than `u64::MAX`; what
            // follows can only make the value larger or the text invalid.
            assert(digits_value(next) > u64::MAX);
            let mut k: usize = i + 1;
            while k < s.len()
                invariant
                    start <= i < k <= s@.len(),
                    d == s@.subrange(start as int, s@.len() as int),
                    d == (if s@.len() > 0 && s@[0] == 43 {
                        s@.drop_first()
                    } else {
                        s@
                    }),
            d == (if s@.len() > 0 && s@[0] == 43 {
                s@.drop_first()
            } else {
                s@
            }),
                    forall|j: int| start <= j < k ==> is_digit(#[trigger] s@[j]),
                decreases s@.len() - k,
            {
                if s[k] < 48 || s[k] > 57 {
                    assert(d[k - start] == s@[k as int]);
                    assert(!is_digit(d[k - start]));
                    assert(!all_digits(d));
                    return None;
                }
                k = k + 1;
            }
            proof {
                assert forall|j: int| 0 <= j < d.len() implies is_digit(#[trigger] d[j]) by {
                    assert(d[j] == s@[j + start]);
                }
                assert(all_digits(d));
                assert(d.subrange(0, i + 1 - start) =~= next);
                lemma_digits_value_prefix(d, i + 1 - start);
                assert(digits_value(d) > u64::MAX);
            }
            return None;
        }
        v = v * 10 + (c - 48) as u64;
        i = i + 1;
    }
    assert(s@.subrange(start as int, i as int) =~= d);
    assert forall|j: int| 0 <= j < d.len() implies is_digit(#[trigger] d[j]) by {
        assert(d[j] == s@[j + start]);
    }
    assert(all_digits(d));
    Some(v)
}

/// The number that `s` spells, kept only where it is at most `max`.
pub fn parse_up_to(s: &[u8], max: u64) -> (r: Option<u64>)
    ensures
        match r {
            Some(v) => parse_bounded(s@, max as nat) == Some(v as nat),
            None => parse_bounded(s@, max as nat) is None,
        },
{
    match parse_u64(s) {
        Some(v) => if v <= max {
            Some(v)
        } else {
            None
        },
        None => None,
    }
}

/// Appends `n` written in base `base`.
pub fn push_num(out: &mut Vec<u8>, n: u64, base: u64)
    requires
        2 <= base <= 16,
    ensures
        final(out)@ == old(out)@ + num_text(n as nat, base as nat),
    decreases n,
{
    if n >= base {
        assert(n / base < n) by (nonlinear_arith)
            requires
                base >= 2,
                n >= base,
        ;
        push_num(out, n / base, base);
    }
    let d = n % base;
    let c: u8 = if d < 10 {
        48 + d as u8
    } else {
        87 + d as u8
    };
    out.push(c);
    proof {
        if n >= base {
            assert(final(out)@ =~= old(out)@ + num_text(n as nat, base as nat));
        } else {
            assert(d == n) by (nonlinear_arith)
                requires
                    n < base,
                    d == n % base,
            ;
            assert(final(out)@ =~= old(out)@ + num_text(n as nat, base as nat));
        }
    }
}

/// Appends `n` in decimal.
pub fn push_dec(out: &mut Vec<u8>, n: u64)
    ensures
        final(out)@ == old(out)@ + dec_text(n as nat),
{
    push_num(out, n, 10);
}

/// Appends the bytes of `s`.
pub fn push_str(out: &mut Vec<u8>, s: &str)
    ensures
        final(out)@ == old(out)@ + s.spec_bytes(),
{
    append_bytes(out, s.as_bytes());
}

/// A fresh vector holding the bytes of `s`.
pub fn str_vec(s: &str) -> (r: Vec<u8>)
    ensures
        r@ == s.spec_bytes(),
{
    let mut r: Vec<u8> = Vec::new();
    push_str(&mut r, s);
    r
}

/// A byte absent from `a` is found in `a + b` where it is found in `b`,
/// shifted by the length of `a`.
pub proof fn lemma_index_of_after(a: Seq<u8>, b: Seq<u8>, x: u8)
    requires
        forall|i: int| 0 <= i < a.len() ==> a[i] != x,
    ensures
        index_of(a + b, x) == (match index_of(b, x) {
            Some(i) => Some(i + a.len()),
            None => None,
        }),
    decreases a.len(),
{
    if a.len() == 0 {
        assert(a + b =~= b);
    } else {
        assert((a + b).drop_first() =~= a.drop_first() + b);
        lemma_index_of_after(a.drop_first(), b, x);
    }
}

/// A byte found in `a` is found at the same place in `a + b`.
pub proof fn lemma_index_of_before(a: Seq<u8>, b: Seq<u8>, x: u8)
    requires
        index_of(a, x) is Some,
    ensures
        index_of(a + b, x) == index_of(a, x),
    decreases a.len(),
{
    if a[0] != x {
        assert((a + b).drop_first() =~= a.drop_first() + b);
        lemma_index_of_before(a.drop_first(), b, x);
    }
}

/// `trim` of a text that neither starts nor ends with whitespace, followed
/// by a line terminator, is the text.
pub proof fn lemma_trim_line(x: Seq<u8>)
    requires
        x.len() > 0,
        !is_ws(x[0]),
        !is_ws(x.last()),
    ensures
        trim(x + crlf()) == x,
{
    let y = x + crlf();
    assert(y[0] == x[0]);
    assert(trim_start(y) == y);
    assert(y.last() == 10);
    assert(y.drop_last() =~= x + seq![13u8]);
    assert(trim_end(y) == trim_end(y.drop_last()));
    assert(y.drop_last().last() == 13);
    assert(y.drop_last().drop_last() =~= x);
    assert(trim_end(y.drop_last()) == trim_end(x));
    assert(trim_end(x) == x);
}

/// A text that neither starts nor ends with whitespace trims to itself.
pub proof fn lemma_trim_plain(x: Seq<u8>)
    requires
        x.len() > 0,
        !is_ws(x[0]),
        !is_ws(x.last()),
    ensures
        trim(x) == x,
{
    assert(trim_start(x) == x);
    assert(trim_end(x) == x);
}

/// A bare line terminator trims to nothing.
pub proof fn lemma_trim_crlf()
    ensures
        trim(crlf()).len() == 0,
{
    let c = crlf();
    let d = seq![10u8];
    let e = Seq::<u8>::empty();
    assert(c.drop_first() =~= d);
    assert(d.drop_first() =~= e);
    assert(trim_start(e) == e);
    assert(trim_start(d) == trim_start(e));
    assert(trim_start(c) == trim_start(d));
    assert(trim_end(e) == e);
}

/// The text of a number is made of digits and reads back as the number.
pub proof fn lemma_dec_text(n: nat)
    ensures
        dec_text(n).len() > 0,
        all_digits(dec_text(n)),
        digits_value(dec_text(n)) == n,
        dec_text(n)[0] != 43,
        !is_ws(dec_text(n).last()),
        !is_ws(dec_text(n)[0]),
    decreases n,
{
    if n >= 10 {
        lemma_dec_text(n / 10);
        let s = dec_text(n / 10);
        let t = s.push(digit_char(n % 10));
        assert(dec_text(n) == t);
        assert(t.drop_last() =~= s);
        assert(t.last() == digit_char(n % 10));
        assert(digits_value(t) == digits_value(s) * 10 + (t.last() - 48) as nat);
        assert((n / 10) * 10 + n % 10 == n);
        assert forall|i: int| 0 <= i < t.len() implies is_digit(#[trigger] t[i]) by {
            if i < s.len() {
                assert(t[i] == s[i]);
            }
        }
        assert(t[0] == s[0]);
    } else {
        let t = seq![digit_char(n)];
        assert(dec_text(n) == t);
        assert(t.drop_last() =~= Seq::<u8>::empty());
        assert(digits_value(t) == digits_value(t.drop_last()) * 10 + (t.last() - 48) as nat);
    }
}

/// `parse_bounded` reads back the text of any number up to the bound.
pub proof fn lemma_parse_dec_text(n: nat, max: nat)
    requires
        n <= max,
    ensures
        parse_bounded(dec_text(n), max) == Some(n),
{
    lemma_dec_text(n);
}

} // verus!
