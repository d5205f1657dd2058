//! The persisted text format of the package store: a line-oriented,
//! self-describing rendering of each record, with a verified parser.
//! Newlines and backslashes inside stored strings are escaped, so every
//! record is a fixed group of `keyword value` lines.

use vstd::prelude::*;
use vstd::string::*;
use crate::db::{BuildStatus, EntryView, PackageState, StateView, StatusView};
use crate::text::chars_to_string;
use crate::text::push_str_chars;

verus! {

/// Text that fits on one line.
pub open spec fn no_newline(s: Seq<char>) -> bool {
    forall|i: int| 0 <= i < s.len() ==> s[i] != '\n'
}

// ---------------------------------------------------------------------------
// Escaping: '\n' becomes "\\n", '\\' becomes "\\\\"; all else is itself.
// ---------------------------------------------------------------------------

/// The rendering of one character inside a value.
pub open spec fn esc_char(c: char) -> Seq<char> {
    if c == '\n' {
        seq!['\\', 'n']
    } else if c == '\\' {
        seq!['\\', '\\']
    } else {
        seq![c]
    }
}

/// The escaped rendering of a value.
pub open spec fn esc_spec(s: Seq<char>) -> Seq<char>
    decreases s.len(),
{
    if s.len() == 0 {
        Seq::empty()
    } else {
        esc_char(s[0]) + esc_spec(s.skip(1))
    }
}

/// The value an escaped rendering denotes, if it is well formed.
pub open spec fn unesc_spec(s: Seq<char>) -> Option<Seq<char>>
    decreases s.len(),
{
    if s.len() == 0 {
        Option::Some(Seq::empty())
    } else if s[0] == '\\' {
        if s.len() < 2 {
            Option::None
        } else if s[1] == 'n' {
            match unesc_spec(s.skip(2)) {
                Option::None => Option::None,
                Option::Some(r) => Option::Some(seq!['\n'] + r),
            }
        } else if s[1] == '\\' {
            match unesc_spec(s.skip(2)) {
                Option::None => Option::None,
                Option::Some(r) => Option::Some(seq!['\\'] + r),
            }
        } else {
            Option::None
        }
    } else {
        match unesc_spec(s.skip(1)) {
            Option::None => Option::None,
            Option::Some(r) => Option::Some(seq![s[0]] + r),
        }
    }
}

/// Escaped text never contains a newline, so a value fits on one line.
pub proof fn lemma_esc_no_newline(s: Seq<char>)
    ensures
        forall|i: int| 0 <= i < esc_spec(s).len() ==> esc_spec(s)[i] != '\n',
    decreases s.len(),
{
    if s.len() > 0 {
        lemma_esc_no_newline(s.skip(1));
        assert forall|i: int| 0 <= i < esc_spec(s).len() implies esc_spec(s)[i] != '\n' by {
            if i < esc_char(s[0]).len() {
                assert(esc_spec(s)[i] == esc_char(s[0])[i]);
            } else {
                assert(esc_spec(s)[i] == esc_spec(s.skip(1))[i - esc_char(s[0]).len()]);
            }
        }
    }
}

/// Unescaping inverts escaping.
pub proof fn lemma_unesc_esc(s: Seq<char>)
    ensures
        unesc_spec(esc_spec(s)) == Option::Some(s),
    decreases s.len(),
{
    if s.len() > 0 {
        lemma_unesc_esc(s.skip(1));
        let e = esc_spec(s);
        if s[0] == '\n' {
            assert(e.skip(2) =~= esc_spec(s.skip(1)));
            assert(seq!['\n'] + s.skip(1) =~= s);
        } else if s[0] == '\\' {
            assert(e.skip(2) =~= esc_spec(s.skip(1)));
            assert(seq!['\\'] + s.skip(1) =~= s);
        } else {
            assert(e.skip(1) =~= esc_spec(s.skip(1)));
            assert(seq![s[0]] + s.skip(1) =~= s);
        }
    }
}

proof fn lemma_esc_push(s: Seq<char>, c: char)
    ensures
        esc_spec(s.push(c)) == esc_spec(s) + esc_char(c),
    decreases s.len(),
{
    if s.len() == 0 {
        assert(s.push(c)[0] == c);
        assert(s.push(c).skip(1) =~= Seq::<char>::empty());
        assert(esc_spec(Seq::<char>::empty()) == Seq::<char>::empty());
        assert(esc_spec(s.push(c)) =~= esc_spec(s) + esc_char(c));
    } else {
        lemma_esc_push(s.skip(1), c);
        assert(s.push(c)[0] == s[0]);
        assert(s.push(c).skip(1) =~= s.skip(1).push(c));
        assert(esc_spec(s.push(c)) == esc_char(s[0]) + esc_spec(s.skip(1).push(c)));
        assert(esc_spec(s.push(c)) =~= esc_spec(s) + esc_char(c));
    }
}

/// Appends the escaped rendering of `s` to `out`.
pub fn push_escaped(out: &mut Vec<char>, s: &str)
    ensures
        final(out)@ == old(out)@ + esc_spec(s@),
{
    let len = s.unicode_len();
    let mut i: usize = 0;
    while i < len
        invariant
            i <= len,
            len == s@.len(),
            out@ == old(out)@ + esc_spec(s@.subrange(0, i as int)),
        decreases len - i,
    {
        let c = s.get_char(i);
        if c == '\n' {
            out.push('\\');
            out.push('n');
        } else if c == '\\' {
            out.push('\\');
            out.push('\\');
        } else {
            out.push(c);
        }
        proof {
            lemma_esc_push(s@.subrange(0, i as int), s@[i as int]);
            assert(s@.subrange(0, i as int).push(s@[i as int]) =~= s@.subrange(0, i as int + 1));
            assert(out@ =~= old(out)@ + esc_spec(s@.subrange(0, i as int + 1)));
        }
        i += 1;
    }
    proof {
        assert(s@.subrange(0, len as int) =~= s@);
    }
}

/// Recovers the value denoted by an escaped line, or reports it malformed.
pub fn unescape(line: &Vec<char>, from: usize) -> (r: Option<Vec<char>>)
    requires
        from <= line@.len(),
    ensures
        match r {
            Option::Some(out) => unesc_spec(line@.skip(from as int)) == Option::Some(out@),
            Option::None => unesc_spec(line@.skip(from as int)) is None,
        },
{
    let len = line.len();
    let mut out: Vec<char> = Vec::new();
    let mut i: usize = from;
    while i < len
        invariant
            from <= i <= len,
            len == line@.len(),
            unesc_spec(line@.skip(from as int)) == (match unesc_spec(line@.skip(i as int)) {
                Option::None => Option::None::<Seq<char>>,
                Option::Some(rest) => Option::Some(out@ + rest),
            }),
        decreases len - i,
    {
        let c = line[i];
        if c == '\\' {
            if i + 1 >= len {
                return Option::None;
            }
            let d = line[i + 1];
            if d == 'n' {
                out.push('\n');
            } else if d == '\\' {
                out.push('\\');
            } else {
                return Option::None;
            }
            proof {
                assert(line@.skip(i as int).skip(2) =~= line@.skip(i as int + 2));
            }
            i += 2;
        } else {
            out.push(c);
            proof {
                assert(line@.skip(i as int).skip(1) =~= line@.skip(i as int + 1));
            }
            i += 1;
        }
    }
    proof {
        assert(line@.skip(len as int) =~= Seq::<char>::empty());
        assert(out@ + Seq::<char>::empty() =~= out@);
    }
    Option::Some(out)
}

// ---------------------------------------------------------------------------
// Decimal rendering and parsing of u64 timestamps.
// ---------------------------------------------------------------------------

/// The character for one decimal digit.
pub open spec fn digit_char(d: int) -> char {
    if d == 0 {
        '0'
    } else if d == 1 {
        '1'
    } else if d == 2 {
        '2'
    } else if d == 3 {
        '3'
    } else if d == 4 {
        '4'
    } else if d == 5 {
        '5'
    } else if d == 6 {
        '6'
    } else if d == 7 {
        '7'
    } else if d == 8 {
        '8'
    } else {
        '9'
    }
}

/// The digit a character denotes, if any.
pub open spec fn char_digit(c: char) -> Option<int> {
    if c == '0' {
        Option::Some(0)
    } else if c == '1' {
        Option::Some(1)
    } else if c == '2' {
        Option::Some(2)
    } else if c == '3' {
        Option::Some(3)
    } else if c == '4' {
        Option::Some(4)
    } else if c == '5' {
        Option::Some(5)
    } else if c == '6' {
        Option::Some(6)
    } else if c == '7' {
        Option::Some(7)
    } else if c == '8' {
        Option::Some(8)
    } else if c == '9' {
        Option::Some(9)
    } else {
        Option::None
    }
}

pub open spec fn is_digit(c: char) -> bool {
    char_digit(c) is Some
}

/// Decimal rendering of a natural number, most significant digit first.
pub open spec fn dec_nat(n: nat) -> Seq<char>
    decreases n,
{
    if n < 10 {
        seq![digit_char(n as int)]
    } else {
        dec_nat(n / 10) + seq![digit_char((n % 10) as int)]
    }
}

/// Decimal rendering of a timestamp.
pub open spec fn dec_spec(n: u64) -> Seq<char> {
    dec_nat(n as nat)
}

pub open spec fn all_digits(s: Seq<char>) -> bool {
    forall|i: int| 0 <= i < s.len() ==> is_digit(s[i])
}

/// The number a digit string denotes (a non-digit counts as zero; parsing
/// rejects such strings separately).
pub open spec fn digits_val(s: Seq<char>) -> nat
    decreases s.len(),
{
    if s.len() == 0 {
        0
    } else {
        digits_val(s.drop_last()) * 10 + (match char_digit(s.last()) {
            Option::Some(d) => d,
            Option::None => 0,
        }) as nat
    }
}

/// A decimal line denotes a timestamp exactly when it is nonempty, all
/// digits, and within range of `u64`.
pub open spec fn parse_u64_spec(s: Seq<char>) -> Option<u64> {
    if s.len() >= 1 && all_digits(s) && digits_val(s) <= u64::MAX {
        Option::Some(digits_val(s) as u64)
    } else {
        Option::None
    }
}

/// Rendered decimals are digit strings denoting the rendered number.
pub proof fn lemma_dec_nat_val(n: nat)
    ensures
        dec_nat(n).len() >= 1,
        all_digits(dec_nat(n)),
        digits_val(dec_nat(n)) == n,
    decreases n,
{
    if n < 10 {
        assert(dec_nat(n).drop_last() =~= Seq::<char>::empty());
        assert(digits_val(Seq::<char>::empty()) == 0);
        assert(char_digit(digit_char(n as int)) == Option::Some(n as int));
        assert(digits_val(dec_nat(n)) == 0 * 10 + n);
    } else {
        lemma_dec_nat_val(n / 10);
        let s = dec_nat(n);
        assert(s.drop_last() =~= dec_nat(n / 10));
        assert(s.last() == digit_char((n % 10) as int));
        assert(char_digit(digit_char((n % 10) as int)) == Option::Some((n % 10) as int));
        assert(digits_val(s) == (n / 10) * 10 + n % 10);
        assert((n / 10) * 10 + n % 10 == n) by {
            vstd::arithmetic::div_mod::lemma_fundamental_div_mod(n as int, 10);
        }
        assert forall|i: int| 0 <= i < s.len() implies is_digit(s[i]) by {
            if i < s.len() - 1 {
                assert(s[i] == dec_nat(n / 10)[i]);
            }
        }
    }
}

/// Parsing inverts decimal rendering.
pub proof fn lemma_parse_dec(n: u64)
    ensures
        parse_u64_spec(dec_spec(n)) == Option::Some(n),
{
    lemma_dec_nat_val(n as nat);
}

/// Extending a digit string can only raise its value.
proof fn lemma_digits_val_prefix(s: Seq<char>, i: int)
    requires
        0 <= i <= s.len(),
    ensures
        digits_val(s) >= digits_val(s.take(i)),
    decreases s.len() - i,
{
    if i < s.len() {
        assert(s.take(i + 1).drop_last() =~= s.take(i));
        assert(digits_val(s.take(i + 1)) == digits_val(s.take(i)) * 10 + (match char_digit(
            s.take(i + 1).last(),
        ) {
            Option::Some(d) => d,
            Option::None => 0,
        }) as nat);
        assert(digits_val(s.take(i)) * 10 >= digits_val(s.take(i)));
        lemma_digits_val_prefix(s, i + 1);
        assert(s.take(s.len() as int) =~= s);
    } else {
        assert(s.take(i) =~= s);
    }
}

/// Appends the decimal rendering of `n` to `out`.
pub fn push_dec(out: &mut Vec<char>, n: u64)
    ensures
        final(out)@ == old(out)@ + dec_spec(n),
    decreases n,
{
    if n < 10 {
        out.push(digit_to_char(n));
    } else {
        push_dec(out, n / 10);
        out.push(digit_to_char(n % 10));
        proof {
            assert(old(out)@ + dec_nat((n / 10) as nat) + seq![digit_char((n % 10) as int)]
                =~= old(out)@ + dec_spec(n));
        }
    }
}

fn digit_to_char(d: u64) -> (c: char)
    requires
        d < 10,
    ensures
        c == digit_char(d as int),
{
    if d == 0 {
        '0'
    } else if d == 1 {
        '1'
    } else if d == 2 {
        '2'
    } else if d == 3 {
        '3'
    } else if d == 4 {
        '4'
    } else if d == 5 {
        '5'
    } else if d == 6 {
        '6'
    } else if d == 7 {
        '7'
    } else if d == 8 {
        '8'
    } else {
        '9'
    }
}

fn char_to_digit(c: char) -> (r: Option<u64>)
    ensures
        match r {
            Option::Some(d) => d < 10 && char_digit(c) == Option::Some(d as int),
            Option::None => char_digit(c) is None,
        },
{
    if c == '0' {
        Option::Some(0)
    } else if c == '1' {
        Option::Some(1)
    } else if c == '2' {
        Option::Some(2)
    } else if c == '3' {
        Option::Some(3)
    } else if c == '4' {
        Option::Some(4)
    } else if c == '5' {
        Option::Some(5)
    } else if c == '6' {
        Option::Some(6)
    } else if c == '7' {
        Option::Some(7)
    } else if c == '8' {
        Option::Some(8)
    } else if c == '9' {
        Option::Some(9)
    } else {
        Option::None
    }
}

/// Parses the suffix of `line` from `from` as a decimal timestamp.
pub fn parse_dec(line: &Vec<char>, from: usize) -> (r: Option<u64>)
    requires
        from <= line@.len(),
    ensures
        r == parse_u64_spec(line@.skip(from as int)),
{
    let ghost s = line@.skip(from as int);
    let len = line.len();
    if from == len {
        return Option::None;
    }
    let mut acc: u64 = 0;
    let mut i: usize = from;
    while i < len
        invariant
            from <= i <= len,
            len == line@.len(),
            s == line@.skip(from as int),
            all_digits(s.take(i - from)),
            acc == digits_val(s.take(i - from)),
        decreases len - i,
    {
        let c = line[i];
        match char_to_digit(c) {
            Option::None => {
                proof {
                    assert(s[i - from] == c);
                    assert(!is_digit(s[i - from]));
                }
                return Option::None;
            },
            Option::Some(d) => {
                proof {
                    assert(s.take(i - from + 1).drop_last() =~= s.take(i - from));
                    assert(s.take(i - from + 1).last() == c);
                }
                if acc > (u64::MAX - d) / 10 {
                    proof {
                        assert(digits_val(s.take(i - from + 1)) == acc * 10 + d);
                        assert(acc * 10 + d > u64::MAX) by (nonlinear_arith)
                            requires
                                acc > (u64::MAX - d) / 10,
                                d < 10,
                                (u64::MAX - d) / 10 == ((u64::MAX - d) as int) / 10,
                        {
                            let q = ((u64::MAX - d) as int) / 10;
                            vstd::arithmetic::div_mod::lemma_fundamental_div_mod(
                                (u64::MAX - d) as int,
                                10,
                            );
                            assert(acc >= q + 1);
                        }
                        lemma_digits_val_prefix(s, i - from + 1);
                        assert(digits_val(s) > u64::MAX);
                    }
                    return Option::None;
                }
                proof {
                    assert(acc * 10 + d <= u64::MAX) by (nonlinear_arith)
                        requires
                            acc <= (u64::MAX - d) / 10,
                            d < 10,
                            (u64::MAX - d) / 10 == ((u64::MAX - d) as int) / 10,
                    {
                        vstd::arithmetic::div_mod::lemma_fundamental_div_mod(
                            (u64::MAX - d) as int,
                            10,
                        );
                    }
                }
                acc = acc * 10 + d;
                i += 1;
            },
        }
    }
    proof {
        assert(s.take(len - from) =~= s);
    }
    Option::Some(acc)
}

// ---------------------------------------------------------------------------
// Lines: a line is the text up to the first newline.
// ---------------------------------------------------------------------------

/// Splits off the first line (without its newline) and the remainder after it.
pub open spec fn split_line(s: Seq<char>) -> Option<(Seq<char>, Seq<char>)>
    decreases s.len(),
{
    if s.len() == 0 {
        Option::None
    } else if s[0] == '\n' {
        Option::Some((Seq::empty(), s.skip(1)))
    } else {
        match split_line(s.skip(1)) {
            Option::None => Option::None,
            Option::Some(p) => Option::Some((seq![s[0]] + p.0, p.1)),
        }
    }
}

proof fn lemma_split_line_at(s: Seq<char>, j: int)
    requires
        0 <= j < s.len(),
        s[j] == '\n',
        forall|k: int| 0 <= k < j ==> s[k] != '\n',
    ensures
        split_line(s) == Option::Some((s.take(j), s.skip(j + 1))),
    decreases j,
{
    if j == 0 {
        assert(s.take(0) =~= Seq::<char>::empty());
    } else {
        lemma_split_line_at(s.skip(1), j - 1);
        assert(seq![s[0]] + s.skip(1).take(j - 1) =~= s.take(j));
        assert(s.skip(1).skip(j) =~= s.skip(j + 1));
    }
}

proof fn lemma_split_line_none(s: Seq<char>)
    requires
        forall|k: int| 0 <= k < s.len() ==> s[k] != '\n',
    ensures
        split_line(s) is None,
    decreases s.len(),
{
    if s.len() > 0 {
        lemma_split_line_none(s.skip(1));
    }
}

/// Splitting recovers a newline-free line that was rendered in front.
pub proof fn lemma_split_line_concat(l: Seq<char>, r: Seq<char>)
    requires
        forall|k: int| 0 <= k < l.len() ==> l[k] != '\n',
    ensures
        split_line(l + seq!['\n'] + r) == Option::Some((l, r)),
{
    let s = l + seq!['\n'] + r;
    assert(s[l.len() as int] == '\n');
    lemma_split_line_at(s, l.len() as int);
    assert(s.take(l.len() as int) =~= l);
    assert(s.skip(l.len() as int + 1) =~= r);
}

/// Finds the first line of `v` starting at `i`: its content and the index
/// just past its newline.
pub fn take_line(v: &Vec<char>, i: usize) -> (r: Option<(Vec<char>, usize)>)
    requires
        i <= v@.len(),
    ensures
        match r {
            Option::Some(p) => {
                &&& i < p.1 <= v@.len()
                &&& split_line(v@.skip(i as int)) == Option::Some((p.0@, v@.skip(p.1 as int)))
            },
            Option::None => split_line(v@.skip(i as int)) is None,
        },
{
    let len = v.len();
    let mut j: usize = i;
    while j < len
        invariant
            i <= j <= len,
            len == v@.len(),
            forall|k: int| i <= k < j ==> v@[k] != '\n',
        decreases len - j,
    {
        if v[j] == '\n' {
            let mut line: Vec<char> = Vec::new();
            let mut t: usize = i;
            while t < j
                invariant
                    i <= t <= j <= len,
                    len == v@.len(),
                    line@ == v@.subrange(i as int, t as int),
                decreases j - t,
            {
                line.push(v[t]);
                proof {
                    assert(line@ =~= v@.subrange(i as int, t as int + 1));
                }
                t += 1;
            }
            proof {
                let s = v@.skip(i as int);
                assert(s[j - i] == '\n');
                assert(forall|k: int| 0 <= k < j - i ==> s[k] != '\n');
                lemma_split_line_at(s, j - i);
                assert(s.take(j - i) =~= v@.subrange(i as int, j as int));
                assert(s.skip(j - i + 1) =~= v@.skip(j as int + 1));
            }
            return Option::Some((line, j + 1));
        }
        j += 1;
    }
    proof {
        lemma_split_line_none(v@.skip(i as int));
    }
    Option::None
}

// ---------------------------------------------------------------------------
// Keyword-tagged values.
// ---------------------------------------------------------------------------

/// One rendered line: keyword, space, value, newline.
pub open spec fn line_of(kw: Seq<char>, value: Seq<char>) -> Seq<char> {
    kw + seq![' '] + value + seq!['\n']
}

/// The value of a line that starts with the given keyword and a space.
pub open spec fn parse_kw_value(line: Seq<char>, kw: Seq<char>) -> Option<Seq<char>> {
    if line.len() > kw.len() && line.take(kw.len() as int) == kw && line[kw.len() as int] == ' ' {
        Option::Some(line.skip(kw.len() as int + 1))
    } else {
        Option::None
    }
}

/// Reading the keyword back off a rendered line yields the rendered value.
pub proof fn lemma_parse_kw_of_line(kw: Seq<char>, value: Seq<char>)
    ensures
        parse_kw_value(kw + seq![' '] + value, kw) == Option::Some(value),
{
    let line = kw + seq![' '] + value;
    assert(line.take(kw.len() as int) =~= kw);
    assert(line[kw.len() as int] == ' ');
    assert(line.skip(kw.len() as int + 1) =~= value);
}

/// Checks the keyword prefix of a line and returns the index of its value.
pub fn kw_value_start(line: &Vec<char>, kw: &str) -> (r: Option<usize>)
    ensures
        match r {
            Option::Some(start) => {
                &&& start <= line@.len()
                &&& parse_kw_value(line@, kw@) == Option::Some(line@.skip(start as int))
            },
            Option::None => parse_kw_value(line@, kw@) is None,
        },
{
    let klen = kw.unicode_len();
    if line.len() <= klen {
        return Option::None;
    }
    let mut t: usize = 0;
    while t < klen
        invariant
            t <= klen,
            klen == kw@.len(),
            line@.len() > klen,
            forall|k: int| 0 <= k < t ==> line@[k] == kw@[k],
        decreases klen - t,
    {
        if line[t] != kw.get_char(t) {
            proof {
                assert(line@.take(klen as int)[t as int] != kw@[t as int]);
            }
            return Option::None;
        }
        t += 1;
    }
    if line[klen] != ' ' {
        return Option::None;
    }
    proof {
        assert(line@.take(klen as int) =~= kw@);
    }
    Option::Some(klen + 1)
}

// ---------------------------------------------------------------------------
// One record: six keyword lines.
// ---------------------------------------------------------------------------

/// The line value for an optional built version: `-` when absent, else `+`
/// followed by the escaped version.
pub open spec fn opt_version_text(v: Option<Seq<char>>) -> Seq<char> {
    match v {
        Option::None => seq!['-'],
        Option::Some(s) => seq!['+'] + esc_spec(s),
    }
}

/// The line value for an optional timestamp: `-` when absent, else decimal.
pub open spec fn opt_time_text(t: Option<u64>) -> Seq<char> {
    match t {
        Option::None => seq!['-'],
        Option::Some(n) => dec_spec(n),
    }
}

/// The line value for a build status.
pub open spec fn status_text(st: StatusView) -> Seq<char> {
    match st {
        StatusView::Pending => "pending"@,
        StatusView::Building => "building"@,
        StatusView::Succeeded => "succeeded"@,
        StatusView::Failed(reason) => "failed "@ + esc_spec(reason),
    }
}

pub open spec fn parse_opt_version(value: Seq<char>) -> Option<Option<Seq<char>>> {
    if value == seq!['-'] {
        Option::Some(Option::None)
    } else if value.len() >= 1 && value[0] == '+' {
        match unesc_spec(value.skip(1)) {
            Option::None => Option::None,
            Option::Some(s) => Option::Some(Option::Some(s)),
        }
    } else {
        Option::None
    }
}

pub open spec fn parse_opt_time(value: Seq<char>) -> Option<Option<u64>> {
    if value == seq!['-'] {
        Option::Some(Option::None)
    } else {
        match parse_u64_spec(value) {
            Option::None => Option::None,
            Option::Some(n) => Option::Some(Option::Some(n)),
        }
    }
}

pub open spec fn parse_status(value: Seq<char>) -> Option<StatusView> {
    if value == "pending"@ {
        Option::Some(StatusView::Pending)
    } else if value == "building"@ {
        Option::Some(StatusView::Building)
    } else if value == "succeeded"@ {
        Option::Some(StatusView::Succeeded)
    } else if value.len() >= "failed "@.len() && value.take("failed "@.len() as int)
        == "failed "@ {
        match unesc_spec(value.skip("failed "@.len() as int)) {
            Option::None => Option::None,
            Option::Some(reason) => Option::Some(StatusView::Failed(reason)),
        }
    } else {
        Option::None
    }
}

/// The rendering of one record: package name, observed upstream version,
/// built version, check time, build time, status — one keyword line each.
pub open spec fn render_entry_spec(e: EntryView) -> Seq<char> {
    line_of("package"@, esc_spec(e.0)) + line_of("upstream"@, esc_spec(e.1.aur_version)) + line_of(
        "built"@,
        opt_version_text(e.1.built_version),
    ) + line_of("checked"@, dec_spec(e.1.last_checked)) + line_of(
        "finished"@,
        opt_time_text(e.1.last_built),
    ) + line_of("status"@, status_text(e.1.build_status))
}

/// Parses one record off the front of `s`, returning it and the remainder.
pub open spec fn parse_entry_spec(s: Seq<char>) -> Option<(EntryView, Seq<char>)> {
    match split_line(s) {
        Option::None => Option::None,
        Option::Some((l1, s1)) => match parse_kw_value(l1, "package"@) {
            Option::None => Option::None,
            Option::Some(v1) => match unesc_spec(v1) {
                Option::None => Option::None,
                Option::Some(name) => match split_line(s1) {
                    Option::None => Option::None,
                    Option::Some((l2, s2)) => match parse_kw_value(l2, "upstream"@) {
                        Option::None => Option::None,
                        Option::Some(v2) => match unesc_spec(v2) {
                            Option::None => Option::None,
                            Option::Some(aur_version) => match split_line(s2) {
                                Option::None => Option::None,
                                Option::Some((l3, s3)) => match parse_kw_value(l3, "built"@) {
                                    Option::None => Option::None,
                                    Option::Some(v3) => match parse_opt_version(v3) {
                                        Option::None => Option::None,
                                        Option::Some(built_version) => match split_line(s3) {
                                            Option::None => Option::None,
                                            Option::Some((l4, s4)) => match parse_kw_value(
                                                l4,
                                                "checked"@,
                                            ) {
                                                Option::None => Option::None,
                                                Option::Some(v4) => match parse_u64_spec(v4) {
                                                    Option::None => Option::None,
                                                    Option::Some(last_checked) => match split_line(
                                                        s4,
                                                    ) {
                                                        Option::None => Option::None,
                                                        Option::Some((l5, s5)) => match parse_kw_value(
                                                            l5,
                                                            "finished"@,
                                                        ) {
                                                            Option::None => Option::None,
                                                            Option::Some(v5) => match parse_opt_time(
                                                                v5,
                                                            ) {
                                                                Option::None => Option::None,
                                                                Option::Some(last_built) => match split_line(
                                                                    s5,
                                                                ) {
                                                                    Option::None => Option::None,
                                                                    Option::Some((l6, s6)) => match parse_kw_value(
                                                                        l6,
                                                                        "status"@,
                                                                    ) {
                                                                        Option::None => Option::None,
                                                                        Option::Some(v6) => match parse_status(
                                                                            v6,
                                                                        ) {
                                                                            Option::None => Option::None,
                                                                            Option::Some(
                                                                                build_status,
                                                                            ) => Option::Some(
                                                                                (
                                                                                    (
                                                                                        name,
                                                                                        StateView {
                                                                                            aur_version,
                                                                                            built_version,
                                                                                            last_checked,
                                                                                            last_built,
                                                                                            build_status,
                                                                                        },
                                                                                    ),
                                                                                    s6,
                                                                                ),
                                                                            ),
                                                                        },
                                                                    },
                                                                },
                                                            },
                                                        },
                                                    },
                                                },
                                            },
                                        },
                                    },
                                },
                            },
                        },
                    },
                },
            },
        },
    }
}

/// The rendering of a whole store: its records in order.
pub open spec fn render_entries_spec(es: Seq<EntryView>) -> Seq<char>
    decreases es.len(),
{
    if es.len() == 0 {
        Seq::empty()
    } else {
        render_entry_spec(es[0]) + render_entries_spec(es.skip(1))
    }
}

/// Parses a whole store: records until the text is exhausted.
pub open spec fn parse_entries_spec(s: Seq<char>) -> Option<Seq<EntryView>>
    decreases s.len(),
{
    if s.len() == 0 {
        Option::Some(Seq::empty())
    } else {
        match parse_entry_spec(s) {
            Option::None => Option::None,
            Option::Some((e, rest)) => if rest.len() < s.len() {
                match parse_entries_spec(rest) {
                    Option::None => Option::None,
                    Option::Some(es) => Option::Some(seq![e] + es),
                }
            } else {
                Option::None
            },
        }
    }
}

proof fn lemma_literal_facts()
    ensures
        no_newline("package"@),
        no_newline("upstream"@),
        no_newline("built"@),
        no_newline("checked"@),
        no_newline("finished"@),
        no_newline("status"@),
        no_newline("pending"@),
        no_newline("building"@),
        no_newline("succeeded"@),
        no_newline("failed "@),
        "pending"@.len() == 7,
        "building"@.len() == 8,
        "succeeded"@.len() == 9,
        "failed "@.len() == 7,
        "pending"@[0] == 'p',
        "building"@[0] == 'b',
        "succeeded"@[0] == 's',
        "failed "@[0] == 'f',
{
    reveal_strlit("package");
    reveal_strlit("upstream");
    reveal_strlit("built");
    reveal_strlit("checked");
    reveal_strlit("finished");
    reveal_strlit("status");
    reveal_strlit("pending");
    reveal_strlit("building");
    reveal_strlit("succeeded");
    reveal_strlit("failed ");
}

proof fn lemma_line_no_newline(kw: Seq<char>, value: Seq<char>)
    requires
        no_newline(kw),
        no_newline(value),
    ensures
        no_newline(kw + seq![' '] + value),
{
    let l = kw + seq![' '] + value;
    assert forall|i: int| 0 <= i < l.len() implies l[i] != '\n' by {
        if i < kw.len() {
            assert(l[i] == kw[i]);
        } else if i == kw.len() {
            assert(l[i] == ' ');
        } else {
            assert(l[i] == value[i - kw.len() - 1]);
        }
    }
}

proof fn lemma_digits_no_newline(s: Seq<char>)
    requires
        all_digits(s),
    ensures
        no_newline(s),
{
    assert forall|i: int| 0 <= i < s.len() implies s[i] != '\n' by {
        assert(is_digit(s[i]));
    }
}

proof fn lemma_value_texts(st: StateView)
    ensures
        no_newline(esc_spec(st.aur_version)),
        no_newline(opt_version_text(st.built_version)),
        no_newline(dec_spec(st.last_checked)),
        no_newline(opt_time_text(st.last_built)),
        no_newline(status_text(st.build_status)),
        parse_opt_version(opt_version_text(st.built_version)) == Option::Some(st.built_version),
        parse_u64_spec(dec_spec(st.last_checked)) == Option::Some(st.last_checked),
        parse_opt_time(opt_time_text(st.last_built)) == Option::Some(st.last_built),
        parse_status(status_text(st.build_status)) == Option::Some(st.build_status),
{
    lemma_literal_facts();
    lemma_esc_no_newline(st.aur_version);
    lemma_dec_nat_val(st.last_checked as nat);
    lemma_digits_no_newline(dec_spec(st.last_checked));
    lemma_parse_dec(st.last_checked);
    // built version
    match st.built_version {
        Option::None => {
            assert(opt_version_text(st.built_version) == seq!['-']);
            assert(no_newline(seq!['-']));
        },
        Option::Some(v) => {
            lemma_esc_no_newline(v);
            let t = seq!['+'] + esc_spec(v);
            assert forall|i: int| 0 <= i < t.len() implies t[i] != '\n' by {
                if i > 0 {
                    assert(t[i] == esc_spec(v)[i - 1]);
                }
            }
            assert(t[0] == '+');
            assert(t != seq!['-']);
            assert(t.skip(1) =~= esc_spec(v));
            lemma_unesc_esc(v);
        },
    }
    // finished time
    match st.last_built {
        Option::None => {
            assert(opt_time_text(st.last_built) == seq!['-']);
            assert(no_newline(seq!['-']));
        },
        Option::Some(n) => {
            lemma_dec_nat_val(n as nat);
            lemma_digits_no_newline(dec_spec(n));
            lemma_parse_dec(n);
            let t = dec_spec(n);
            assert(is_digit(t[0]));
            assert(t != seq!['-']) by {
                if t == seq!['-'] {
                    assert(t[0] == '-');
                    assert(char_digit('-') is None);
                }
            }
        },
    }
    // status
    match st.build_status {
        StatusView::Pending => {},
        StatusView::Building => {
            assert("building"@ != "pending"@);
        },
        StatusView::Succeeded => {
            assert("succeeded"@ != "pending"@);
            assert("succeeded"@ != "building"@);
        },
        StatusView::Failed(reason) => {
            lemma_esc_no_newline(reason);
            let t = "failed "@ + esc_spec(reason);
            assert forall|i: int| 0 <= i < t.len() implies t[i] != '\n' by {
                if i < 7 {
                    assert(t[i] == "failed "@[i]);
                } else {
                    assert(t[i] == esc_spec(reason)[i - 7]);
                }
            }
            assert(t[0] == 'f');
            assert(t != "pending"@) by {
                if t == "pending"@ {
                    assert(t[0] == 'p');
                }
            }
            assert(t != "building"@) by {
                if t == "building"@ {
                    assert(t[0] == 'b');
                }
            }
            assert(t != "succeeded"@) by {
                if t == "succeeded"@ {
                    assert(t[0] == 's');
                }
            }
            assert(t.take(7) =~= "failed "@);
            assert(t.skip(7) =~= esc_spec(reason));
            lemma_unesc_esc(reason);
        },
    }
}

/// Parsing one record off its rendering, whatever follows, recovers it exactly.
pub proof fn lemma_parse_entry_of_render(e: EntryView, tail: Seq<char>)
    ensures
        parse_entry_spec(render_entry_spec(e) + tail) == Option::Some((e, tail)),
        render_entry_spec(e).len() > 0,
{
    lemma_literal_facts();
    lemma_esc_no_newline(e.0);
    lemma_unesc_esc(e.0);
    lemma_unesc_esc(e.1.aur_version);
    lemma_value_texts(e.1);
    let st = e.1;
    let l1 = "package"@ + seq![' '] + esc_spec(e.0);
    let l2 = "upstream"@ + seq![' '] + esc_spec(st.aur_version);
    let l3 = "built"@ + seq![' '] + opt_version_text(st.built_version);
    let l4 = "checked"@ + seq![' '] + dec_spec(st.last_checked);
    let l5 = "finished"@ + seq![' '] + opt_time_text(st.last_built);
    let l6 = "status"@ + seq![' '] + status_text(st.build_status);
    let s6 = l6 + seq!['\n'] + tail;
    let s5 = l5 + seq!['\n'] + s6;
    let s4 = l4 + seq!['\n'] + s5;
    let s3 = l3 + seq!['\n'] + s4;
    let s2 = l2 + seq!['\n'] + s3;
    let s1 = l1 + seq!['\n'] + s2;
    assert(render_entry_spec(e) + tail =~= s1);
    lemma_line_no_newline("package"@, esc_spec(e.0));
    lemma_line_no_newline("upstream"@, esc_spec(st.aur_version));
    lemma_line_no_newline("built"@, opt_version_text(st.built_version));
    lemma_line_no_newline("checked"@, dec_spec(st.last_checked));
    lemma_line_no_newline("finished"@, opt_time_text(st.last_built));
    lemma_line_no_newline("status"@, status_text(st.build_status));
    lemma_split_line_concat(l1, s2);
    lemma_split_line_concat(l2, s3);
    lemma_split_line_concat(l3, s4);
    lemma_split_line_concat(l4, s5);
    lemma_split_line_concat(l5, s6);
    lemma_split_line_concat(l6, tail);
    lemma_parse_kw_of_line("package"@, esc_spec(e.0));
    lemma_parse_kw_of_line("upstream"@, esc_spec(st.aur_version));
    lemma_parse_kw_of_line("built"@, opt_version_text(st.built_version));
    lemma_parse_kw_of_line("checked"@, dec_spec(st.last_checked));
    lemma_parse_kw_of_line("finished"@, opt_time_text(st.last_built));
    lemma_parse_kw_of_line("status"@, status_text(st.build_status));
    assert(parse_entry_spec(s1) == Option::Some((e, tail)));
}

/// Appends the rendering of one record to `out`.
#[verifier::rlimit(60)]
pub fn render_state(out: &mut Vec<char>, name: &str, st: &PackageState)
    ensures
        final(out)@ == old(out)@ + render_entry_spec((name@, st@)),
{
    push_str_chars(out, "package");
    out.push(' ');
    push_escaped(out, name);
    out.push('\n');
    proof {
        assert(out@ =~= old(out)@ + line_of("package"@, esc_spec(name@)));
    }
    let ghost p1 = out@;
    push_str_chars(out, "upstream");
    out.push(' ');
    push_escaped(out, st.aur_version.as_str());
    out.push('\n');
    proof {
        assert(out@ =~= p1 + line_of("upstream"@, esc_spec(st@.aur_version)));
    }
    let ghost p2 = out@;
    push_str_chars(out, "built");
    out.push(' ');
    match &st.built_version {
        Option::None => out.push('-'),
        Option::Some(v) => {
            out.push('+');
            push_escaped(out, v.as_str());
        },
    }
    out.push('\n');
    proof {
        assert(out@ =~= p2 + line_of("built"@, opt_version_text(st@.built_version)));
    }
    let ghost p3 = out@;
    push_str_chars(out, "checked");
    out.push(' ');
    push_dec(out, st.last_checked);
    out.push('\n');
    proof {
        assert(out@ =~= p3 + line_of("checked"@, dec_spec(st@.last_checked)));
    }
    let ghost p4 = out@;
    push_str_chars(out, "finished");
    out.push(' ');
    match st.last_built {
        Option::None => out.push('-'),
        Option::Some(t) => push_dec(out, t),
    }
    out.push('\n');
    proof {
        assert(out@ =~= p4 + line_of("finished"@, opt_time_text(st@.last_built)));
    }
    let ghost p5 = out@;
    push_str_chars(out, "status");
    out.push(' ');
    match &st.build_status {
        BuildStatus::Pending => push_str_chars(out, "pending"),
        BuildStatus::Building => push_str_chars(out, "building"),
        BuildStatus::Succeeded => push_str_chars(out, "succeeded"),
        BuildStatus::Failed(r) => {
            push_str_chars(out, "failed ");
            push_escaped(out, r.as_str());
        },
    }
    out.push('\n');
    proof {
        assert(out@ =~= p5 + line_of("status"@, status_text(st@.build_status)));
        assert(out@ =~= old(out)@ + render_entry_spec((name@, st@)));
    }
}

fn suffix_eq(line: &Vec<char>, from: usize, s: &str) -> (r: bool)
    requires
        from <= line@.len(),
    ensures
        r == (line@.skip(from as int) == s@),
{
    let slen = s.unicode_len();
    let llen = line.len();
    if llen - from != slen {
        proof {
            assert(line@.skip(from as int).len() != s@.len());
        }
        return false;
    }
    let mut k: usize = 0;
    while k < slen
        invariant
            k <= slen,
            slen == s@.len(),
            llen == line@.len(),
            from + slen == llen,
            forall|t: int| 0 <= t < k ==> line@.skip(from as int)[t] == s@[t],
        decreases slen - k,
    {
        if line[from + k] != s.get_char(k) {
            proof {
                assert(line@.skip(from as int)[k as int] != s@[k as int]);
            }
            return false;
        }
        k += 1;
    }
    proof {
        assert(line@.skip(from as int) =~= s@);
    }
    true
}

fn parse_built_value(line: &Vec<char>, from: usize) -> (r: Option<Option<Vec<char>>>)
    requires
        from <= line@.len(),
    ensures
        match r {
            Option::None => parse_opt_version(line@.skip(from as int)) is None,
            Option::Some(Option::None) => parse_opt_version(line@.skip(from as int))
                == Option::Some(Option::None::<Seq<char>>),
            Option::Some(Option::Some(v)) => parse_opt_version(line@.skip(from as int))
                == Option::Some(Option::Some(v@)),
        },
{
    let len = line.len();
    let ghost value = line@.skip(from as int);
    if from == len {
        return Option::None;
    }
    if line[from] == '-' && from + 1 == len {
        proof {
            assert(value =~= seq!['-']);
        }
        return Option::Some(Option::None);
    }
    if line[from] == '+' {
        proof {
            assert(value[0] == '+');
            assert(value != seq!['-']);
            assert(value.skip(1) =~= line@.skip(from as int + 1));
        }
        match unescape(line, from + 1) {
            Option::None => Option::None,
            Option::Some(v) => Option::Some(Option::Some(v)),
        }
    } else {
        proof {
            assert(value[0] != '+');
            assert(value != seq!['-']) by {
                if value == seq!['-'] {
                    assert(value.len() == 1);
                    assert(value[0] == '-');
                }
            }
        }
        Option::None
    }
}

fn parse_time_value(line: &Vec<char>, from: usize) -> (r: Option<Option<u64>>)
    requires
        from <= line@.len(),
    ensures
        match r {
            Option::None => parse_opt_time(line@.skip(from as int)) is None,
            Option::Some(Option::None) => parse_opt_time(line@.skip(from as int)) == Option::Some(
                Option::None::<u64>,
            ),
            Option::Some(Option::Some(n)) => parse_opt_time(line@.skip(from as int))
                == Option::Some(Option::Some(n)),
        },
{
    let len = line.len();
    let ghost value = line@.skip(from as int);
    if from < len && line[from] == '-' && from + 1 == len {
        proof {
            assert(value =~= seq!['-']);
        }
        return Option::Some(Option::None);
    }
    proof {
        assert(value != seq!['-']) by {
            if value == seq!['-'] {
                assert(value.len() == 1);
                assert(value[0] == '-');
            }
        }
    }
    match parse_dec(line, from) {
        Option::None => Option::None,
        Option::Some(n) => Option::Some(Option::Some(n)),
    }
}

fn parse_status_value(line: &Vec<char>, from: usize) -> (r: Option<BuildStatus>)
    requires
        from <= line@.len(),
    ensures
        match r {
            Option::Some(st) => parse_status(line@.skip(from as int)) == Option::Some(st@),
            Option::None => parse_status(line@.skip(from as int)) is None,
        },
{
    let ghost value = line@.skip(from as int);
    if suffix_eq(line, from, "pending") {
        return Option::Some(BuildStatus::Pending);
    }
    if suffix_eq(line, from, "building") {
        return Option::Some(BuildStatus::Building);
    }
    if suffix_eq(line, from, "succeeded") {
        return Option::Some(BuildStatus::Succeeded);
    }
    let flen = "failed ".unicode_len();
    let llen = line.len();
    if llen - from < flen {
        proof {
            assert(value.len() < "failed "@.len());
        }
        return Option::None;
    }
    let mut k: usize = 0;
    while k < flen
        invariant
            k <= flen,
            flen == "failed "@.len(),
            llen == line@.len(),
            from + flen <= llen,
            value == line@.skip(from as int),
            value.len() >= flen,
            value != "pending"@,
            value != "building"@,
            value != "succeeded"@,
            forall|t: int| 0 <= t < k ==> line@.skip(from as int)[t] == "failed "@[t],
        decreases flen - k,
    {
        if line[from + k] != "failed ".get_char(k) {
            proof {
                assert(value.take(flen as int)[k as int] != "failed "@[k as int]);
                assert(value.take(flen as int) != "failed "@);
                assert(value.take("failed "@.len() as int) != "failed "@);
                assert(parse_status(value) is None);
            }
            return Option::None;
        }
        k += 1;
    }
    proof {
        assert(value.take(flen as int) =~= "failed "@);
        assert(value.skip(flen as int) =~= line@.skip(from as int + flen as int));
    }
    match unescape(line, from + flen) {
        Option::None => Option::None,
        Option::Some(reason) => Option::Some(BuildStatus::Failed(chars_to_string(&reason))),
    }
}

/// Parses one record starting at index `i`, returning the package name, its
/// state, and the index just past the record.
pub fn parse_entry_at(v: &Vec<char>, i: usize) -> (r: Option<(String, PackageState, usize)>)
    requires
        i <= v@.len(),
    ensures
        match r {
            Option::Some(t) => {
                &&& i < t.2 <= v@.len()
                &&& parse_entry_spec(v@.skip(i as int)) == Option::Some(
                    ((t.0@, t.1@), v@.skip(t.2 as int)),
                )
            },
            Option::None => parse_entry_spec(v@.skip(i as int)) is None,
        },
{
    let (l1, n1) = match take_line(v, i) {
        Option::None => {
            return Option::None;
        },
        Option::Some(p) => p,
    };
    let start1 = match kw_value_start(&l1, "package") {
        Option::None => {
            return Option::None;
        },
        Option::Some(s) => s,
    };
    let namev = match unescape(&l1, start1) {
        Option::None => {
            return Option::None;
        },
        Option::Some(x) => x,
    };
    let (l2, n2) = match take_line(v, n1) {
        Option::None => {
            return Option::None;
        },
        Option::Some(p) => p,
    };
    let start2 = match kw_value_start(&l2, "upstream") {
        Option::None => {
            return Option::None;
        },
        Option::Some(s) => s,
    };
    let aurv = match unescape(&l2, start2) {
        Option::None => {
            return Option::None;
        },
        Option::Some(x) => x,
    };
    let (l3, n3) = match take_line(v, n2) {
        Option::None => {
            return Option::None;
        },
        Option::Some(p) => p,
    };
    let start3 = match kw_value_start(&l3, "built") {
        Option::None => {
            return Option::None;
        },
        Option::Some(s) => s,
    };
    let builtv = match parse_built_value(&l3, start3) {
        Option::None => {
            return Option::None;
        },
        Option::Some(x) => x,
    };
    let (l4, n4) = match take_line(v, n3) {
        Option::None => {
            return Option::None;
        },
        Option::Some(p) => p,
    };
    let start4 = match kw_value_start(&l4, "checked") {
        Option::None => {
            return Option::None;
        },
        Option::Some(s) => s,
    };
    let last_checked = match parse_dec(&l4, start4) {
        Option::None => {
            return Option::None;
        },
        Option::Some(n) => n,
    };
    let (l5, n5) = match take_line(v, n4) {
        Option::None => {
            return Option::None;
        },
        Option::Some(p) => p,
    };
    let start5 = match kw_value_start(&l5, "finished") {
        Option::None => {
            return Option::None;
        },
        Option::Some(s) => s,
    };
    let last_built = match parse_time_value(&l5, start5) {
        Option::None => {
            return Option::None;
        },
        Option::Some(x) => x,
    };
    let (l6, n6) = match take_line(v, n5) {
        Option::None => {
            return Option::None;
        },
        Option::Some(p) => p,
    };
    let start6 = match kw_value_start(&l6, "status") {
        Option::None => {
            return Option::None;
        },
        Option::Some(s) => s,
    };
    let build_status = match parse_status_value(&l6, start6) {
        Option::None => {
            return Option::None;
        },
        Option::Some(x) => x,
    };
    let name = chars_to_string(&namev);
    let built_version = match builtv {
        Option::None => Option::None,
        Option::Some(b) => Option::Some(chars_to_string(&b)),
    };
    let st = PackageState {
        aur_version: chars_to_string(&aurv),
        built_version,
        last_checked,
        last_built,
        build_status,
    };
    Option::Some((name, st, n6))
}

/// The name/state pairs a parsed store denotes.
pub open spec fn pairs_view(ps: Seq<(String, PackageState)>) -> Seq<EntryView> {
    ps.map(|k: int, p: (String, PackageState)| (p.0@, p.1@))
}

/// Parses a whole store rendering.
pub fn parse_all(v: &Vec<char>) -> (r: Option<Vec<(String, PackageState)>>)
    ensures
        match r {
            Option::Some(ps) => parse_entries_spec(v@) == Option::Some(pairs_view(ps@)),
            Option::None => parse_entries_spec(v@) is None,
        },
{
    let len = v.len();
    let mut out: Vec<(String, PackageState)> = Vec::new();
    let mut i: usize = 0;
    proof {
        assert(pairs_view(out@) =~= Seq::<EntryView>::empty());
        assert(v@.skip(0) =~= v@);
        match parse_entries_spec(v@) {
            Option::None => {},
            Option::Some(rest) => {
                assert(pairs_view(out@) + rest =~= rest);
            },
        }
    }
    while i < len
        invariant
            i <= len,
            len == v@.len(),
            parse_entries_spec(v@) == (match parse_entries_spec(v@.skip(i as int)) {
                Option::None => Option::None::<Seq<EntryView>>,
                Option::Some(rest) => Option::Some(pairs_view(out@) + rest),
            }),
        decreases len - i,
    {
        match parse_entry_at(v, i) {
            Option::None => {
                proof {
                    assert(v@.skip(i as int).len() > 0);
                    assert(parse_entries_spec(v@.skip(i as int)) is None);
                }
                return Option::None;
            },
            Option::Some((name, st, next)) => {
                let ghost e = (name@, st@);
                let ghost pre = pairs_view(out@);
                proof {
                    assert(v@.skip(i as int).len() > 0);
                    assert(v@.skip(next as int).len() < v@.skip(i as int).len());
                }
                out.push((name, st));
                proof {
                    assert(pairs_view(out@) =~= pre.push(e));
                    match parse_entries_spec(v@.skip(next as int)) {
                        Option::None => {
                            assert(parse_entries_spec(v@.skip(i as int)) is None);
                        },
                        Option::Some(rest) => {
                            assert(parse_entries_spec(v@.skip(i as int)) == Option::Some(
                                seq![e] + rest,
                            ));
                            assert(pre + (seq![e] + rest) =~= pairs_view(out@) + rest);
                        },
                    }
                }
                i = next;
            },
        }
    }
    proof {
        assert(v@.skip(len as int) =~= Seq::<char>::empty());
        assert(parse_entries_spec(Seq::<char>::empty()) == Option::Some(Seq::<EntryView>::empty()));
        assert(pairs_view(out@) + Seq::<EntryView>::empty() =~= pairs_view(out@));
    }
    Option::Some(out)
}

/// Parsing inverts rendering for a whole sequence of records.
pub proof fn lemma_roundtrip_entries(es: Seq<EntryView>)
    ensures
        parse_entries_spec(render_entries_spec(es)) == Option::Some(es),
    decreases es.len(),
{
    if es.len() == 0 {
    } else {
        let tail = render_entries_spec(es.skip(1));
        let s = render_entries_spec(es);
        lemma_parse_entry_of_render(es[0], tail);
        lemma_roundtrip_entries(es.skip(1));
        assert(parse_entry_spec(s) == Option::Some((es[0], tail)));
        assert(s.len() == render_entry_spec(es[0]).len() + tail.len());
        assert(tail.len() < s.len());
        assert(seq![es[0]] + es.skip(1) =~= es);
    }
}

} // verus!
