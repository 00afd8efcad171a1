//! The grammar of histogram-log documents, written twice: once as spec
//! functions that define what each rule accepts and produces, and once as
//! executable recursive-descent functions proved equivalent to them.
//!
//! A document is one or more sections.  A section is an optional
//! `=== name ===` header (attempted with full backtracking), a fixed
//! column-header line, one or more percentile rows, and three bracketed
//! aggregate lines.  Any text left after the last section that matches is
//! ignored.
use crate::hgrm::{dv, pow10, rows_view, Decimal, DecimalView, HgrmView, OnePercentile, OnePercentileView, Percentile, PercentileView, HGRM, HGRMs};
use vstd::prelude::*;
use vstd::string::{StrSliceExecFns, StringExecFns};

verus! {

/// The opaque parse-failure signal: the document matched no section.
#[derive(Clone, Copy, Debug, PartialEq, Eq, Structural)]
pub struct ParseFailure;

/// The whitespace accepted between tokens: space, tab, carriage return,
/// line feed.
pub open spec fn is_space(c: char) -> bool {
    c == ' ' || c == '\t' || c == '\r' || c == '\n'
}

pub open spec fn is_digit(c: char) -> bool {
    '0' <= c && c <= '9'
}

pub open spec fn digit_val(c: char) -> nat {
    (c as int - '0' as int) as nat
}

/// The position after the run of whitespace that starts at `pos`.
pub open spec fn spec_skip_ws(s: Seq<char>, pos: int) -> int
    decreases s.len() - pos,
{
    if pos < s.len() && is_space(s[pos]) {
        spec_skip_ws(s, pos + 1)
    } else {
        pos
    }
}

proof fn lemma_skip_ws_bounds(s: Seq<char>, pos: int)
    requires
        0 <= pos <= s.len(),
    ensures
        pos <= spec_skip_ws(s, pos) <= s.len(),
    decreases s.len() - pos,
{
    if pos < s.len() && is_space(s[pos]) {
        lemma_skip_ws_bounds(s, pos + 1);
    }
}

/// The position after the run of decimal digits that starts at `pos`.
pub open spec fn spec_digits_end(s: Seq<char>, pos: int) -> int
    decreases s.len() - pos,
{
    if pos < s.len() && is_digit(s[pos]) {
        spec_digits_end(s, pos + 1)
    } else {
        pos
    }
}

proof fn lemma_digits_end_bounds(s: Seq<char>, pos: int)
    requires
        0 <= pos <= s.len(),
    ensures
        pos <= spec_digits_end(s, pos) <= s.len(),
        forall|i: int| pos <= i < spec_digits_end(s, pos) ==> is_digit(s[i]),
    decreases s.len() - pos,
{
    if pos < s.len() && is_digit(s[pos]) {
        lemma_digits_end_bounds(s, pos + 1);
    }
}

/// The unsigned value of the digit run `s[from..to]`.
pub open spec fn digits_val(s: Seq<char>, from: int, to: int) -> nat
    decreases to - from,
{
    if from >= to {
        0
    } else {
        digits_val(s, from, to - 1) * 10 + digit_val(s[to - 1])
    }
}

/// A literal token at `pos`: `Some` of the position after it when `s`
/// continues with exactly `t` there.
pub open spec fn spec_tag(s: Seq<char>, pos: int, t: Seq<char>) -> Option<int> {
    if 0 <= pos && pos + t.len() <= s.len() && s.subrange(pos, pos + t.len() as int) == t {
        Some(pos + t.len() as int)
    } else {
        None
    }
}

/// An unsigned-integer token: one or more digits whose value fits in a
/// 64-bit word.  A longer digit run is a parse failure, not a truncation.
pub open spec fn spec_u64_token(s: Seq<char>, pos: int) -> Option<(int, u64)> {
    let end = spec_digits_end(s, pos);
    if end == pos {
        None
    } else if digits_val(s, pos, end) > u64::MAX {
        None
    } else {
        Some((end, digits_val(s, pos, end) as u64))
    }
}

/// The position after a decimal-shaped token (digits, a literal point,
/// digits) at `pos`, or `None` when the text there has no such shape.
/// A bare integer has no shape: the point and the fraction digits are
/// required.
pub open spec fn spec_decimal_shape(s: Seq<char>, pos: int) -> Option<int> {
    let e1 = spec_digits_end(s, pos);
    if e1 == pos {
        None
    } else if !(e1 < s.len() && s[e1] == '.') {
        None
    } else {
        let e2 = spec_digits_end(s, e1 + 1);
        if e2 == e1 + 1 {
            None
        } else {
            Some(e2)
        }
    }
}

/// A decimal-value token: every digits-point-digits token is accepted,
/// whatever its length, and denotes its exact value.
pub open spec fn spec_decimal(s: Seq<char>, pos: int) -> Option<(int, DecimalView)> {
    match spec_decimal_shape(s, pos) {
        None => None,
        Some(e2) => {
            let e1 = spec_digits_end(s, pos);
            let sc = e2 - e1 - 1;
            let m = digits_val(s, pos, e1) * pow10(sc as nat) + digits_val(s, e1 + 1, e2);
            Some((e2, DecimalView { mantissa: m, scale: sc as nat }))
        },
    }
}

/// The one-percentile column: a decimal-shaped token read as a decimal,
/// otherwise the literal token `inf`.
pub open spec fn spec_one_percentile(s: Seq<char>, pos: int) -> Option<(int, OnePercentileView)> {
    if spec_decimal_shape(s, pos) is Some {
        match spec_decimal(s, pos) {
            Some((e, d)) => Some((e, OnePercentileView::Value(d))),
            None => None,
        }
    } else {
        match spec_tag(s, pos, seq!['i', 'n', 'f']) {
            Some(e) => Some((e, OnePercentileView::Inf)),
            None => None,
        }
    }
}

// ---------------------------------------------------------------------------
// Executable token readers, each proved equal to its spec rule.
// ---------------------------------------------------------------------------
fn space_at(v: &[char], p: usize) -> (r: bool)
    requires
        p < v@.len(),
    ensures
        r == is_space(v@[p as int]),
{
    let c = v[p];
    c == ' ' || c == '\t' || c == '\r' || c == '\n'
}

fn digit_at(v: &[char], p: usize) -> (r: bool)
    requires
        p < v@.len(),
    ensures
        r == is_digit(v@[p as int]),
{
    let c = v[p];
    '0' <= c && c <= '9'
}

fn skip_ws(v: &[char], pos: usize) -> (r: usize)
    requires
        pos <= v@.len(),
    ensures
        r as int == spec_skip_ws(v@, pos as int),
        pos <= r <= v@.len(),
{
    let mut p = pos;
    while p < v.len() && space_at(v, p)
        invariant
            pos <= p <= v@.len(),
            spec_skip_ws(v@, pos as int) == spec_skip_ws(v@, p as int),
        decreases v@.len() - p,
    {
        p = p + 1;
    }
    p
}

fn digits_end(v: &[char], pos: usize) -> (r: usize)
    requires
        pos <= v@.len(),
    ensures
        r as int == spec_digits_end(v@, pos as int),
        pos <= r <= v@.len(),
{
    let mut p = pos;
    while p < v.len() && digit_at(v, p)
        invariant
            pos <= p <= v@.len(),
            spec_digits_end(v@, pos as int) == spec_digits_end(v@, p as int),
        decreases v@.len() - p,
    {
        p = p + 1;
    }
    p
}

fn match_tag(v: &[char], pos: usize, t: &[char]) -> (r: Option<usize>)
    requires
        pos <= v@.len(),
    ensures
        match r {
            Some(p) => spec_tag(v@, pos as int, t@) == Some(p as int),
            None => spec_tag(v@, pos as int, t@) is None,
        },
{
    if v.len() - pos < t.len() {
        return None;
    }
    let vlen = v.len();
    let mut i: usize = 0;
    while i < t.len()
        invariant
            0 <= i <= t@.len(),
            vlen == v@.len(),
            pos + t@.len() <= v@.len(),
            forall|j: int| 0 <= j < i ==> v@[pos + j] == t@[j],
        decreases t@.len() - i,
    {
        if v[pos + i] != t[i] {
            proof {
                assert(v@.subrange(pos as int, pos + t@.len() as int)[i as int] != t@[i as int]);
            }
            return None;
        }
        i = i + 1;
    }
    proof {
        assert(v@.subrange(pos as int, pos + t@.len() as int) =~= t@);
    }
    Some(pos + t.len())
}

/// Appending one digit to a digit run multiplies its value by ten.
proof fn lemma_digits_val_snoc(s: Seq<char>, from: int, to: int)
    requires
        from <= to,
    ensures
        digits_val(s, from, to + 1) == digits_val(s, from, to) * 10 + digit_val(s[to]),
{
}

/// A digit run's value only grows as the run extends.
proof fn lemma_digits_val_grow(s: Seq<char>, from: int, mid: int, to: int)
    requires
        from <= mid <= to,
    ensures
        digits_val(s, from, to) >= digits_val(s, from, mid),
    decreases to - mid,
{
    if mid < to {
        lemma_digits_val_grow(s, from, mid, to - 1);
        assert(digits_val(s, from, to) == digits_val(s, from, to - 1) * 10 + digit_val(
            s[to - 1],
        ));
        assert(digits_val(s, from, to - 1) * 10 >= digits_val(s, from, to - 1)) by (
        nonlinear_arith);
    }
}

fn parse_u64(v: &[char], pos: usize) -> (r: Option<(usize, u64)>)
    requires
        pos <= v@.len(),
    ensures
        match r {
            Some((p, n)) => spec_u64_token(v@, pos as int) == Some((p as int, n)) && pos < p <= v@
                .len(),
            None => spec_u64_token(v@, pos as int) is None,
        },
{
    let end = digits_end(v, pos);
    if end == pos {
        return None;
    }
    let mut acc: u64 = 0;
    let mut i = pos;
    while i < end
        invariant
            pos <= i <= end <= v@.len(),
            end as int == spec_digits_end(v@, pos as int),
            acc == digits_val(v@, pos as int, i as int),
        decreases end - i,
    {
        let c = v[i];
        let d = (c as u32) as u64;
        let d = if d >= 48 {
            d - 48
        } else {
            0
        };
        proof {
            lemma_digits_end_bounds(v@, pos as int);
            assert(is_digit(v@[i as int]));
            assert(d == digit_val(v@[i as int]));
            lemma_digits_val_snoc(v@, pos as int, i as int);
        }
        if acc > (u64::MAX - d) / 10 {
            proof {
                assert(digits_val(v@, pos as int, i as int + 1) > u64::MAX);
                lemma_digits_val_grow(v@, pos as int, i as int + 1, end as int);
            }
            return None;
        }
        acc = acc * 10 + d;
        i = i + 1;
    }
    Some((end, acc))
}

/// The combined mantissa after reading `j` fraction digits: the integer
/// part shifted left by `j` decimal places, plus the fraction read so far.
pub open spec fn frac_acc(s: Seq<char>, pos: int, e1: int, j: int) -> nat {
    digits_val(s, pos, e1) * pow10(j as nat) + digits_val(s, e1 + 1, e1 + 1 + j)
}

proof fn lemma_frac_acc_zero(s: Seq<char>, pos: int, e1: int)
    ensures
        frac_acc(s, pos, e1, 0) == digits_val(s, pos, e1),
{
    assert(pow10(0) == 1);
    assert(digits_val(s, pos, e1) * 1 == digits_val(s, pos, e1)) by (nonlinear_arith);
}

proof fn lemma_frac_acc_step(s: Seq<char>, pos: int, e1: int, j: int)
    requires
        0 <= j,
    ensures
        frac_acc(s, pos, e1, j + 1) == frac_acc(s, pos, e1, j) * 10 + digit_val(s[e1 + 1 + j]),
{
    let a = digits_val(s, pos, e1);
    let f = digits_val(s, e1 + 1, e1 + 1 + j);
    let d = digit_val(s[e1 + 1 + j]);
    lemma_digits_val_snoc(s, e1 + 1, e1 + 1 + j);
    assert(digits_val(s, e1 + 1, e1 + 1 + j + 1) == f * 10 + d);
    assert(pow10((j + 1) as nat) == 10 * pow10(j as nat));
    assert(a * (10 * pow10(j as nat)) + (f * 10 + d) == (a * pow10(j as nat) + f) * 10 + d)
        by (nonlinear_arith);
}

/// Append one digit to a canonical digit sequence, dropping a leading
/// zero so that zero stays the empty sequence.
fn push_digit(digits: &mut Vec<u8>, d: u8)
    requires
        d <= 9,
        forall|a: int| 0 <= a < old(digits)@.len() ==> old(digits)@[a] <= 9,
        old(digits)@.len() > 0 ==> old(digits)@[0] != 0,
    ensures
        dv(final(digits)@) == dv(old(digits)@) * 10 + d,
        forall|a: int| 0 <= a < final(digits)@.len() ==> final(digits)@[a] <= 9,
        final(digits)@.len() > 0 ==> final(digits)@[0] != 0,
{
    if digits.len() == 0 && d == 0 {
    } else {
        let ghost olds = digits@;
        digits.push(d);
        proof {
            assert(digits@.drop_last() =~= olds);
        }
    }
}

fn parse_decimal(v: &[char], pos: usize) -> (r: Option<(usize, Decimal)>)
    requires
        pos <= v@.len(),
    ensures
        match r {
            Some((p, d)) => spec_decimal(v@, pos as int) == Some((p as int, d@)) && pos < p <= v@
                .len() && d.wf(),
            None => spec_decimal(v@, pos as int) is None,
        },
{
    let e1 = digits_end(v, pos);
    if e1 == pos {
        return None;
    }
    if e1 == v.len() {
        return None;
    }
    if v[e1] != '.' {
        return None;
    }
    let e2 = digits_end(v, e1 + 1);
    if e2 == e1 + 1 {
        return None;
    }
    let sc = e2 - e1 - 1;
    let mut digits: Vec<u8> = Vec::new();
    let mut i = pos;
    while i < e1
        invariant
            pos <= i <= e1 <= v@.len(),
            e1 as int == spec_digits_end(v@, pos as int),
            dv(digits@) == digits_val(v@, pos as int, i as int),
            forall|a: int| 0 <= a < digits@.len() ==> digits@[a] <= 9,
            digits@.len() > 0 ==> digits@[0] != 0,
        decreases e1 - i,
    {
        let c = v[i];
        let d = (c as u32) as u64;
        let d = if d >= 48 {
            d - 48
        } else {
            0
        };
        proof {
            lemma_digits_end_bounds(v@, pos as int);
            assert(is_digit(v@[i as int]));
            assert(d == digit_val(v@[i as int]));
            lemma_digits_val_snoc(v@, pos as int, i as int);
        }
        push_digit(&mut digits, d as u8);
        i = i + 1;
    }
    proof {
        lemma_frac_acc_zero(v@, pos as int, e1 as int);
    }
    let mut i = e1 + 1;
    while i < e2
        invariant
            e1 + 1 <= i <= e2 <= v@.len(),
            pos < e1 < v@.len(),
            e2 as int == spec_digits_end(v@, e1 as int + 1),
            dv(digits@) == frac_acc(v@, pos as int, e1 as int, i - e1 - 1),
            forall|a: int| 0 <= a < digits@.len() ==> digits@[a] <= 9,
            digits@.len() > 0 ==> digits@[0] != 0,
        decreases e2 - i,
    {
        let c = v[i];
        let d = (c as u32) as u64;
        let d = if d >= 48 {
            d - 48
        } else {
            0
        };
        proof {
            lemma_digits_end_bounds(v@, e1 as int + 1);
            assert(is_digit(v@[i as int]));
            assert(d == digit_val(v@[i as int]));
            lemma_frac_acc_step(v@, pos as int, e1 as int, i - e1 - 1);
        }
        push_digit(&mut digits, d as u8);
        i = i + 1;
    }
    Some((e2, Decimal { digits, scale: sc }))
}

fn lit_inf() -> (t: Vec<char>)
    ensures
        t@ == seq!['i', 'n', 'f'],
{
    let mut t: Vec<char> = Vec::new();
    t.push('i');
    t.push('n');
    t.push('f');
    proof {
        assert(t@ =~= seq!['i', 'n', 'f']);
    }
    t
}

fn parse_one_percentile(v: &[char], pos: usize) -> (r: Option<(usize, OnePercentile)>)
    requires
        pos <= v@.len(),
    ensures
        match r {
            Some((p, o)) => spec_one_percentile(v@, pos as int) == Some((p as int, o@)) && pos
                < p <= v@.len() && o.wf(),
            None => spec_one_percentile(v@, pos as int) is None,
        },
{
    let e1 = digits_end(v, pos);
    let shaped = e1 > pos && e1 < v.len() && v[e1] == '.' && digits_end(v, e1 + 1) > e1 + 1;
    if shaped {
        match parse_decimal(v, pos) {
            Some((p, d)) => Some((p, OnePercentile::Value(d))),
            None => None,
        }
    } else {
        let inf = lit_inf();
        match match_tag(v, pos, inf.as_slice()) {
            Some(p) => Some((p, OnePercentile::Inf)),
            None => None,
        }
    }
}

/// The literal token `Value`.
pub open spec fn value_lit() -> Seq<char> {
    seq!['V', 'a', 'l', 'u', 'e']
}

fn lit_value() -> (t: Vec<char>)
    ensures
        t@ == value_lit(),
{
    let mut t: Vec<char> = Vec::new();
    t.push('V');
    t.push('a');
    t.push('l');
    t.push('u');
    t.push('e');
    proof {
        assert(t@ =~= value_lit());
    }
    t
}

/// The literal token `Percentile`.
pub open spec fn percentile_lit() -> Seq<char> {
    seq!['P', 'e', 'r', 'c', 'e', 'n', 't', 'i', 'l', 'e']
}

fn lit_percentile() -> (t: Vec<char>)
    ensures
        t@ == percentile_lit(),
{
    let mut t: Vec<char> = Vec::new();
    t.push('P');
    t.push('e');
    t.push('r');
    t.push('c');
    t.push('e');
    t.push('n');
    t.push('t');
    t.push('i');
    t.push('l');
    t.push('e');
    proof {
        assert(t@ =~= percentile_lit());
    }
    t
}

/// The literal token `TotalCount`.
pub open spec fn total_count_lit() -> Seq<char> {
    seq!['T', 'o', 't', 'a', 'l', 'C', 'o', 'u', 'n', 't']
}

fn lit_total_count() -> (t: Vec<char>)
    ensures
        t@ == total_count_lit(),
{
    let mut t: Vec<char> = Vec::new();
    t.push('T');
    t.push('o');
    t.push('t');
    t.push('a');
    t.push('l');
    t.push('C');
    t.push('o');
    t.push('u');
    t.push('n');
    t.push('t');
    proof {
        assert(t@ =~= total_count_lit());
    }
    t
}

/// The literal token `1/(1-Percentile)`.
pub open spec fn header_tail_lit() -> Seq<char> {
    seq!['1', '/', '(', '1', '-', 'P', 'e', 'r', 'c', 'e', 'n', 't', 'i', 'l', 'e', ')']
}

fn lit_header_tail() -> (t: Vec<char>)
    ensures
        t@ == header_tail_lit(),
{
    let mut t: Vec<char> = Vec::new();
    t.push('1');
    t.push('/');
    t.push('(');
    t.push('1');
    t.push('-');
    t.push('P');
    t.push('e');
    t.push('r');
    t.push('c');
    t.push('e');
    t.push('n');
    t.push('t');
    t.push('i');
    t.push('l');
    t.push('e');
    t.push(')');
    proof {
        assert(t@ =~= header_tail_lit());
    }
    t
}

/// The literal token `Mean`.
pub open spec fn mean_lit() -> Seq<char> {
    seq!['M', 'e', 'a', 'n']
}

fn lit_mean() -> (t: Vec<char>)
    ensures
        t@ == mean_lit(),
{
    let mut t: Vec<char> = Vec::new();
    t.push('M');
    t.push('e');
    t.push('a');
    t.push('n');
    proof {
        assert(t@ =~= mean_lit());
    }
    t
}

/// The literal token `StdDeviation`.
pub open spec fn std_deviation_lit() -> Seq<char> {
    seq!['S', 't', 'd', 'D', 'e', 'v', 'i', 'a', 't', 'i', 'o', 'n']
}

fn lit_std_deviation() -> (t: Vec<char>)
    ensures
        t@ == std_deviation_lit(),
{
    let mut t: Vec<char> = Vec::new();
    t.push('S');
    t.push('t');
    t.push('d');
    t.push('D');
    t.push('e');
    t.push('v');
    t.push('i');
    t.push('a');
    t.push('t');
    t.push('i');
    t.push('o');
    t.push('n');
    proof {
        assert(t@ =~= std_deviation_lit());
    }
    t
}

/// The literal token `Max`.
pub open spec fn max_lit() -> Seq<char> {
    seq!['M', 'a', 'x']
}

fn lit_max() -> (t: Vec<char>)
    ensures
        t@ == max_lit(),
{
    let mut t: Vec<char> = Vec::new();
    t.push('M');
    t.push('a');
    t.push('x');
    proof {
        assert(t@ =~= max_lit());
    }
    t
}

/// The literal token `Total count`.
pub open spec fn total_count_label_lit() -> Seq<char> {
    seq!['T', 'o', 't', 'a', 'l', ' ', 'c', 'o', 'u', 'n', 't']
}

fn lit_total_count_label() -> (t: Vec<char>)
    ensures
        t@ == total_count_label_lit(),
{
    let mut t: Vec<char> = Vec::new();
    t.push('T');
    t.push('o');
    t.push('t');
    t.push('a');
    t.push('l');
    t.push(' ');
    t.push('c');
    t.push('o');
    t.push('u');
    t.push('n');
    t.push('t');
    proof {
        assert(t@ =~= total_count_label_lit());
    }
    t
}

/// The literal token `Buckets`.
pub open spec fn buckets_lit() -> Seq<char> {
    seq!['B', 'u', 'c', 'k', 'e', 't', 's']
}

fn lit_buckets() -> (t: Vec<char>)
    ensures
        t@ == buckets_lit(),
{
    let mut t: Vec<char> = Vec::new();
    t.push('B');
    t.push('u');
    t.push('c');
    t.push('k');
    t.push('e');
    t.push('t');
    t.push('s');
    proof {
        assert(t@ =~= buckets_lit());
    }
    t
}

/// The literal token `SubBuckets`.
pub open spec fn sub_buckets_lit() -> Seq<char> {
    seq!['S', 'u', 'b', 'B', 'u', 'c', 'k', 'e', 't', 's']
}

fn lit_sub_buckets() -> (t: Vec<char>)
    ensures
        t@ == sub_buckets_lit(),
{
    let mut t: Vec<char> = Vec::new();
    t.push('S');
    t.push('u');
    t.push('b');
    t.push('B');
    t.push('u');
    t.push('c');
    t.push('k');
    t.push('e');
    t.push('t');
    t.push('s');
    proof {
        assert(t@ =~= sub_buckets_lit());
    }
    t
}

/// A line ending: a line feed, or a carriage return followed by a line
/// feed.
pub open spec fn spec_line_ending(s: Seq<char>, pos: int) -> Option<int> {
    if 0 <= pos && pos < s.len() && s[pos] == '\n' {
        Some(pos + 1)
    } else if 0 <= pos && pos + 2 <= s.len() && s[pos] == '\r' && s[pos + 1] == '\n' {
        Some(pos + 2)
    } else {
        None
    }
}

/// The position after every consecutive line ending starting at `pos`.
pub open spec fn spec_skip_line_endings(s: Seq<char>, pos: int) -> int
    decreases s.len() - pos,
{
    match spec_line_ending(s, pos) {
        Some(p) => if pos < p <= s.len() {
            spec_skip_line_endings(s, p)
        } else {
            pos
        },
        None => pos,
    }
}

proof fn lemma_skip_line_endings_bounds(s: Seq<char>, pos: int)
    requires
        0 <= pos <= s.len(),
    ensures
        pos <= spec_skip_line_endings(s, pos) <= s.len(),
    decreases s.len() - pos,
{
    match spec_line_ending(s, pos) {
        Some(p) => {
            if pos < p <= s.len() {
                lemma_skip_line_endings_bounds(s, p);
            }
        },
        None => {},
    }
}

fn parse_line_ending(v: &[char], pos: usize) -> (r: Option<usize>)
    requires
        pos <= v@.len(),
    ensures
        match r {
            Some(p) => spec_line_ending(v@, pos as int) == Some(p as int) && pos < p <= v@.len(),
            None => spec_line_ending(v@, pos as int) is None,
        },
{
    if pos < v.len() && v[pos] == '\n' {
        Some(pos + 1)
    } else if pos < v.len() && v[pos] == '\r' && pos + 1 < v.len() && v[pos + 1] == '\n' {
        Some(pos + 2)
    } else {
        None
    }
}

fn skip_line_endings(v: &[char], pos: usize) -> (r: usize)
    requires
        pos <= v@.len(),
    ensures
        r as int == spec_skip_line_endings(v@, pos as int),
        pos <= r <= v@.len(),
{
    let mut p = pos;
    loop
        invariant
            pos <= p <= v@.len(),
            spec_skip_line_endings(v@, pos as int) == spec_skip_line_endings(v@, p as int),
        decreases v@.len() - p,
    {
        match parse_line_ending(v, p) {
            Some(q) => {
                p = q;
            },
            None => {
                return p;
            },
        }
    }
}

/// One percentile row: two decimal values, an unsigned count, and the
/// one-percentile column, separated by runs of whitespace.
pub open spec fn spec_row(s: Seq<char>, pos: int) -> Option<(int, PercentileView)> {
    let a = spec_skip_ws(s, pos);
    match spec_decimal(s, a) {
        None => None,
        Some((b, value)) => {
            let c = spec_skip_ws(s, b);
            match spec_decimal(s, c) {
                None => None,
                Some((d, percentile)) => {
                    let e = spec_skip_ws(s, d);
                    match spec_u64_token(s, e) {
                        None => None,
                        Some((f, total_count)) => {
                            let g = spec_skip_ws(s, f);
                            match spec_one_percentile(s, g) {
                                None => None,
                                Some((h, one_percentile)) => Some(
                                    (
                                        h,
                                        PercentileView {
                                            value,
                                            percentile,
                                            total_count,
                                            one_percentile,
                                        },
                                    ),
                                ),
                            }
                        },
                    }
                },
            }
        },
    }
}

fn parse_row(v: &[char], pos: usize) -> (r: Option<(usize, Percentile)>)
    requires
        pos <= v@.len(),
    ensures
        match r {
            Some((p, row)) => spec_row(v@, pos as int) == Some((p as int, row@)) && pos < p
                <= v@.len() && row.wf(),
            None => spec_row(v@, pos as int) is None,
        },
{
    let a = skip_ws(v, pos);
    let (b, value) = match parse_decimal(v, a) {
        None => {
            return None;
        },
        Some(x) => x,
    };
    let c = skip_ws(v, b);
    let (d, percentile) = match parse_decimal(v, c) {
        None => {
            return None;
        },
        Some(x) => x,
    };
    let e = skip_ws(v, d);
    let (f, total_count) = match parse_u64(v, e) {
        None => {
            return None;
        },
        Some(x) => x,
    };
    let g = skip_ws(v, f);
    let (h, one_percentile) = match parse_one_percentile(v, g) {
        None => {
            return None;
        },
        Some(x) => x,
    };
    Some((h, Percentile::new(value, percentile, total_count, one_percentile)))
}

/// The rows that follow the first one: each preceded by one line ending.
/// The repetition stops at the first position where no further
/// line-ending-plus-row matches; nothing is consumed there.
pub open spec fn spec_more_rows(s: Seq<char>, pos: int) -> (int, Seq<PercentileView>)
    decreases s.len() - pos,
{
    match spec_line_ending(s, pos) {
        None => (pos, Seq::empty()),
        Some(p1) => if pos < p1 <= s.len() {
            match spec_row(s, p1) {
                None => (pos, Seq::empty()),
                Some((p2, row)) => if p1 <= p2 <= s.len() {
                    let (p3, rest) = spec_more_rows(s, p2);
                    (p3, seq![row] + rest)
                } else {
                    (pos, Seq::empty())
                },
            }
        } else {
            (pos, Seq::empty())
        },
    }
}

/// One or more newline-separated percentile rows.
pub open spec fn spec_rows(s: Seq<char>, pos: int) -> Option<(int, Seq<PercentileView>)> {
    match spec_row(s, pos) {
        None => None,
        Some((p1, row)) => {
            let (p2, rest) = spec_more_rows(s, p1);
            Some((p2, seq![row] + rest))
        },
    }
}

proof fn lemma_more_rows_bounds(s: Seq<char>, pos: int)
    requires
        0 <= pos <= s.len(),
    ensures
        pos <= spec_more_rows(s, pos).0 <= s.len(),
    decreases s.len() - pos,
{
    match spec_line_ending(s, pos) {
        None => {},
        Some(p1) => {
            if pos < p1 <= s.len() {
                match spec_row(s, p1) {
                    None => {},
                    Some((p2, row)) => {
                        if p1 <= p2 <= s.len() {
                            lemma_more_rows_bounds(s, p2);
                        }
                    },
                }
            }
        },
    }
}

fn parse_rows(v: &[char], pos: usize) -> (r: Option<(usize, Vec<Percentile>)>)
    requires
        pos <= v@.len(),
    ensures
        match r {
            Some((p, rows)) => spec_rows(v@, pos as int) == Some((p as int, rows_view(rows@)))
                && pos < p <= v@.len() && rows@.len() > 0 && (forall|i: int|
                0 <= i < rows@.len() ==> (#[trigger] rows@[i]).wf()),
            None => spec_rows(v@, pos as int) is None,
        },
{
    let (p1, first) = match parse_row(v, pos) {
        None => {
            return None;
        },
        Some(x) => x,
    };
    let mut rows: Vec<Percentile> = Vec::new();
    rows.push(first);
    proof {
        assert(rows_view(rows@) =~= seq![first@]);
    }
    let mut p = p1;
    loop
        invariant
            pos < p <= v@.len(),
            rows@.len() >= 1,
            forall|i: int| 0 <= i < rows@.len() ==> (#[trigger] rows@[i]).wf(),
            spec_rows(v@, pos as int) is Some,
            spec_rows(v@, pos as int).unwrap().0 == spec_more_rows(v@, p as int).0,
            spec_rows(v@, pos as int).unwrap().1 == rows_view(rows@) + spec_more_rows(
                v@,
                p as int,
            ).1,
        decreases v@.len() - p,
    {
        let q = match parse_line_ending(v, p) {
            None => {
                proof {
                    assert(spec_more_rows(v@, p as int) == (
                        p as int,
                        Seq::<PercentileView>::empty(),
                    ));
                    assert(rows_view(rows@) + Seq::<PercentileView>::empty() =~= rows_view(rows@));
                }
                return Some((p, rows));
            },
            Some(q) => q,
        };
        let (p2, row) = match parse_row(v, q) {
            None => {
                proof {
                    assert(spec_more_rows(v@, p as int) == (
                        p as int,
                        Seq::<PercentileView>::empty(),
                    ));
                    assert(rows_view(rows@) + Seq::<PercentileView>::empty() =~= rows_view(rows@));
                }
                return Some((p, rows));
            },
            Some(x) => x,
        };
        proof {
            let (p3, rest) = spec_more_rows(v@, p2 as int);
            assert(spec_more_rows(v@, p as int) == (p3, seq![row@] + rest));
            assert(rows_view(rows@.push(row)) =~= rows_view(rows@).push(row@));
            assert(rows_view(rows@) + (seq![row@] + rest) =~= rows_view(rows@).push(row@) + rest);
        }
        rows.push(row);
        p = p2;
    }
}

/// The required column-header line: the four literal tokens in order,
/// separated by whitespace.
pub open spec fn spec_column_header(s: Seq<char>, pos: int) -> Option<int> {
    let a = spec_skip_ws(s, pos);
    match spec_tag(s, a, value_lit()) {
        None => None,
        Some(b) => {
            let c = spec_skip_ws(s, b);
            match spec_tag(s, c, percentile_lit()) {
                None => None,
                Some(d) => {
                    let e = spec_skip_ws(s, d);
                    match spec_tag(s, e, total_count_lit()) {
                        None => None,
                        Some(f) => {
                            let g = spec_skip_ws(s, f);
                            spec_tag(s, g, header_tail_lit())
                        },
                    }
                },
            }
        },
    }
}

fn parse_column_header(v: &[char], pos: usize) -> (r: Option<usize>)
    requires
        pos <= v@.len(),
    ensures
        match r {
            Some(p) => spec_column_header(v@, pos as int) == Some(p as int) && pos < p <= v@.len(),
            None => spec_column_header(v@, pos as int) is None,
        },
{
    let a = skip_ws(v, pos);
    let t = lit_value();
    let b = match match_tag(v, a, t.as_slice()) {
        None => {
            return None;
        },
        Some(x) => x,
    };
    proof {
        assert(b as int == a + value_lit().len());
    }
    let c = skip_ws(v, b);
    let t = lit_percentile();
    let d = match match_tag(v, c, t.as_slice()) {
        None => {
            return None;
        },
        Some(x) => x,
    };
    proof {
        assert(d as int == c + percentile_lit().len());
    }
    let e = skip_ws(v, d);
    let t = lit_total_count();
    let f = match match_tag(v, e, t.as_slice()) {
        None => {
            return None;
        },
        Some(x) => x,
    };
    proof {
        assert(f as int == e + total_count_lit().len());
    }
    let g = skip_ws(v, f);
    let t = lit_header_tail();
    match match_tag(v, g, t.as_slice()) {
        None => None,
        Some(x) => Some(x),
    }
}

/// A label inside an aggregate line: the literal title, flexible
/// whitespace, an equals sign, flexible whitespace.
pub open spec fn spec_agg_label(s: Seq<char>, pos: int, title: Seq<char>) -> Option<int> {
    match spec_tag(s, pos, title) {
        None => None,
        Some(a) => {
            let b = spec_skip_ws(s, a);
            if b < s.len() && s[b] == '=' {
                Some(spec_skip_ws(s, b + 1))
            } else {
                None
            }
        },
    }
}

fn parse_agg_label(v: &[char], pos: usize, title: &[char]) -> (r: Option<usize>)
    requires
        pos <= v@.len(),
    ensures
        match r {
            Some(p) => spec_agg_label(v@, pos as int, title@) == Some(p as int) && pos <= p <= v@
                .len(),
            None => spec_agg_label(v@, pos as int, title@) is None,
        },
{
    let a = match match_tag(v, pos, title) {
        None => {
            return None;
        },
        Some(x) => x,
    };
    proof {
        assert(a as int == pos + title@.len());
    }
    let b = skip_ws(v, a);
    if b < v.len() && v[b] == '=' {
        Some(skip_ws(v, b + 1))
    } else {
        None
    }
}

/// The separator inside an aggregate line: a comma with flexible
/// whitespace around it.
pub open spec fn spec_agg_sep(s: Seq<char>, pos: int) -> Option<int> {
    let a = spec_skip_ws(s, pos);
    if a < s.len() && s[a] == ',' {
        Some(spec_skip_ws(s, a + 1))
    } else {
        None
    }
}

fn parse_agg_sep(v: &[char], pos: usize) -> (r: Option<usize>)
    requires
        pos <= v@.len(),
    ensures
        match r {
            Some(p) => spec_agg_sep(v@, pos as int) == Some(p as int) && pos <= p <= v@.len(),
            None => spec_agg_sep(v@, pos as int) is None,
        },
{
    let a = skip_ws(v, pos);
    if a < v.len() && v[a] == ',' {
        Some(skip_ws(v, a + 1))
    } else {
        None
    }
}

/// An aggregate line carrying two decimal statistics:
/// `#[ T1 = decimal , T2 = decimal ]`.
pub open spec fn spec_agg_dd(s: Seq<char>, pos: int, t1: Seq<char>, t2: Seq<char>) -> Option<
    (int, DecimalView, DecimalView),
> {
    match spec_tag(s, pos, seq!['#', '[']) {
        None => None,
        Some(o) => match spec_agg_label(s, o, t1) {
            None => None,
            Some(a) => match spec_decimal(s, a) {
                None => None,
                Some((b, v1)) => match spec_agg_sep(s, b) {
                    None => None,
                    Some(c) => match spec_agg_label(s, c, t2) {
                        None => None,
                        Some(d) => match spec_decimal(s, d) {
                            None => None,
                            Some((e, v2)) => if e < s.len() && s[e] == ']' {
                                Some((e + 1, v1, v2))
                            } else {
                                None
                            },
                        },
                    },
                },
            },
        },
    }
}

/// An aggregate line carrying a decimal and an unsigned count.
pub open spec fn spec_agg_du(s: Seq<char>, pos: int, t1: Seq<char>, t2: Seq<char>) -> Option<
    (int, DecimalView, u64),
> {
    match spec_tag(s, pos, seq!['#', '[']) {
        None => None,
        Some(o) => match spec_agg_label(s, o, t1) {
            None => None,
            Some(a) => match spec_decimal(s, a) {
                None => None,
                Some((b, v1)) => match spec_agg_sep(s, b) {
                    None => None,
                    Some(c) => match spec_agg_label(s, c, t2) {
                        None => None,
                        Some(d) => match spec_u64_token(s, d) {
                            None => None,
                            Some((e, v2)) => if e < s.len() && s[e] == ']' {
                                Some((e + 1, v1, v2))
                            } else {
                                None
                            },
                        },
                    },
                },
            },
        },
    }
}

/// An aggregate line carrying two unsigned counts.
pub open spec fn spec_agg_uu(s: Seq<char>, pos: int, t1: Seq<char>, t2: Seq<char>) -> Option<
    (int, u64, u64),
> {
    match spec_tag(s, pos, seq!['#', '[']) {
        None => None,
        Some(o) => match spec_agg_label(s, o, t1) {
            None => None,
            Some(a) => match spec_u64_token(s, a) {
                None => None,
                Some((b, v1)) => match spec_agg_sep(s, b) {
                    None => None,
                    Some(c) => match spec_agg_label(s, c, t2) {
                        None => None,
                        Some(d) => match spec_u64_token(s, d) {
                            None => None,
                            Some((e, v2)) => if e < s.len() && s[e] == ']' {
                                Some((e + 1, v1, v2))
                            } else {
                                None
                            },
                        },
                    },
                },
            },
        },
    }
}

fn lit_agg_open() -> (t: Vec<char>)
    ensures
        t@ == seq!['#', '['],
{
    let mut t: Vec<char> = Vec::new();
    t.push('#');
    t.push('[');
    proof {
        assert(t@ =~= seq!['#', '[']);
    }
    t
}

fn parse_agg_dd(v: &[char], pos: usize, t1: &[char], t2: &[char]) -> (r: Option<
    (usize, Decimal, Decimal),
>)
    requires
        pos <= v@.len(),
    ensures
        match r {
            Some((p, x, y)) => spec_agg_dd(v@, pos as int, t1@, t2@) == Some((p as int, x@, y@))
                && pos < p <= v@.len() && x.wf() && y.wf(),
            None => spec_agg_dd(v@, pos as int, t1@, t2@) is None,
        },
{
    let t = lit_agg_open();
    let o = match match_tag(v, pos, t.as_slice()) {
        None => {
            return None;
        },
        Some(x) => x,
    };
    proof {
        assert(o as int == pos + 2);
    }
    let a = match parse_agg_label(v, o, t1) {
        None => {
            return None;
        },
        Some(x) => x,
    };
    let (b, v1) = match parse_decimal(v, a) {
        None => {
            return None;
        },
        Some(x) => x,
    };
    let c = match parse_agg_sep(v, b) {
        None => {
            return None;
        },
        Some(x) => x,
    };
    let d = match parse_agg_label(v, c, t2) {
        None => {
            return None;
        },
        Some(x) => x,
    };
    let (e, v2) = match parse_decimal(v, d) {
        None => {
            return None;
        },
        Some(x) => x,
    };
    if e < v.len() && v[e] == ']' {
        Some((e + 1, v1, v2))
    } else {
        None
    }
}

fn parse_agg_du(v: &[char], pos: usize, t1: &[char], t2: &[char]) -> (r: Option<
    (usize, Decimal, u64),
>)
    requires
        pos <= v@.len(),
    ensures
        match r {
            Some((p, x, y)) => spec_agg_du(v@, pos as int, t1@, t2@) == Some((p as int, x@, y))
                && pos < p <= v@.len() && x.wf(),
            None => spec_agg_du(v@, pos as int, t1@, t2@) is None,
        },
{
    let t = lit_agg_open();
    let o = match match_tag(v, pos, t.as_slice()) {
        None => {
            return None;
        },
        Some(x) => x,
    };
    proof {
        assert(o as int == pos + 2);
    }
    let a = match parse_agg_label(v, o, t1) {
        None => {
            return None;
        },
        Some(x) => x,
    };
    let (b, v1) = match parse_decimal(v, a) {
        None => {
            return None;
        },
        Some(x) => x,
    };
    let c = match parse_agg_sep(v, b) {
        None => {
            return None;
        },
        Some(x) => x,
    };
    let d = match parse_agg_label(v, c, t2) {
        None => {
            return None;
        },
        Some(x) => x,
    };
    let (e, v2) = match parse_u64(v, d) {
        None => {
            return None;
        },
        Some(x) => x,
    };
    if e < v.len() && v[e] == ']' {
        Some((e + 1, v1, v2))
    } else {
        None
    }
}

fn parse_agg_uu(v: &[char], pos: usize, t1: &[char], t2: &[char]) -> (r: Option<(usize, u64, u64)>)
    requires
        pos <= v@.len(),
    ensures
        match r {
            Some((p, x, y)) => spec_agg_uu(v@, pos as int, t1@, t2@) == Some((p as int, x, y))
                && pos < p <= v@.len(),
            None => spec_agg_uu(v@, pos as int, t1@, t2@) is None,
        },
{
    let t = lit_agg_open();
    let o = match match_tag(v, pos, t.as_slice()) {
        None => {
            return None;
        },
        Some(x) => x,
    };
    proof {
        assert(o as int == pos + 2);
    }
    let a = match parse_agg_label(v, o, t1) {
        None => {
            return None;
        },
        Some(x) => x,
    };
    let (b, v1) = match parse_u64(v, a) {
        None => {
            return None;
        },
        Some(x) => x,
    };
    let c = match parse_agg_sep(v, b) {
        None => {
            return None;
        },
        Some(x) => x,
    };
    let d = match parse_agg_label(v, c, t2) {
        None => {
            return None;
        },
        Some(x) => x,
    };
    let (e, v2) = match parse_u64(v, d) {
        None => {
            return None;
        },
        Some(x) => x,
    };
    if e < v.len() && v[e] == ']' {
        Some((e + 1, v1, v2))
    } else {
        None
    }
}

/// The Unicode White_Space property, as `char::is_whitespace` decides it.
pub uninterp spec fn is_unicode_ws(c: char) -> bool;

/// Relies on char::is_whitespace: whether the character has the Unicode
/// White_Space property, a function of the character alone.  Name
/// trimming goes by it.
pub assume_specification[ char::is_whitespace ](c: char) -> (r: bool)
    ensures
        r == is_unicode_ws(c),
;

pub open spec fn trim_start_idx(t: Seq<char>, i: int) -> int
    decreases t.len() - i,
{
    if i < t.len() && is_unicode_ws(t[i]) {
        trim_start_idx(t, i + 1)
    } else {
        i
    }
}

pub open spec fn trim_end_idx(t: Seq<char>, j: int) -> int
    decreases j,
{
    if j > 0 && is_unicode_ws(t[j - 1]) {
        trim_end_idx(t, j - 1)
    } else {
        j
    }
}

/// `t` without its leading and trailing Unicode whitespace.
pub open spec fn spec_trim(t: Seq<char>) -> Seq<char> {
    let b = trim_start_idx(t, 0);
    let e = trim_end_idx(t, t.len() as int);
    if b <= e {
        t.subrange(b, e)
    } else {
        Seq::empty()
    }
}

proof fn lemma_trim_end_le(t: Seq<char>, j: int)
    requires
        0 <= j,
    ensures
        trim_end_idx(t, j) <= j,
    decreases j,
{
    if j > 0 && is_unicode_ws(t[j - 1]) {
        lemma_trim_end_le(t, j - 1);
    }
}

proof fn lemma_trim_start_from(t: Seq<char>, i: int)
    requires
        0 <= i <= t.len(),
        forall|k: int| 0 <= k < i ==> is_unicode_ws(t[k]),
    ensures
        trim_start_idx(t, 0) == trim_start_idx(t, i),
    decreases i,
{
    if i > 0 {
        lemma_trim_start_from(t, i - 1);
    }
}

proof fn lemma_trim_end_from(t: Seq<char>, j: int)
    requires
        0 <= j <= t.len(),
        forall|k: int| j <= k < t.len() ==> is_unicode_ws(t[k]),
    ensures
        trim_end_idx(t, t.len() as int) == trim_end_idx(t, j),
    decreases t.len() - j,
{
    if j < t.len() {
        lemma_trim_end_from(t, j + 1);
    }
}

/// The position after the run of `=` characters that starts at `pos`.
pub open spec fn spec_eq_run_end(s: Seq<char>, pos: int) -> int
    decreases s.len() - pos,
{
    if pos < s.len() && s[pos] == '=' {
        spec_eq_run_end(s, pos + 1)
    } else {
        pos
    }
}

fn eq_at(v: &[char], p: usize) -> (r: bool)
    requires
        p < v@.len(),
    ensures
        r == (v@[p as int] == '='),
{
    v[p] == '='
}

fn eq_run_end(v: &[char], pos: usize) -> (r: usize)
    requires
        pos <= v@.len(),
    ensures
        r as int == spec_eq_run_end(v@, pos as int),
        pos <= r <= v@.len(),
{
    let mut p = pos;
    while p < v.len() && eq_at(v, p)
        invariant
            pos <= p <= v@.len(),
            spec_eq_run_end(v@, pos as int) == spec_eq_run_end(v@, p as int),
        decreases v@.len() - p,
    {
        p = p + 1;
    }
    p
}

/// The first `=` at or after `pos`, as `take_until` would find it.
pub open spec fn spec_find_eq(s: Seq<char>, pos: int) -> Option<int>
    decreases s.len() - pos,
{
    if pos >= s.len() {
        None
    } else if s[pos] == '=' {
        Some(pos)
    } else {
        spec_find_eq(s, pos + 1)
    }
}

fn find_eq(v: &[char], pos: usize) -> (r: Option<usize>)
    requires
        pos <= v@.len(),
    ensures
        match r {
            Some(q) => spec_find_eq(v@, pos as int) == Some(q as int) && pos <= q < v@.len() && v@[
                q as int
            ] == '=',
            None => spec_find_eq(v@, pos as int) is None,
        },
{
    let mut p = pos;
    while p < v.len()
        invariant
            pos <= p <= v@.len(),
            spec_find_eq(v@, pos as int) == spec_find_eq(v@, p as int),
            forall|k: int| pos <= k < p ==> v@[k] != '=',
        decreases v@.len() - p,
    {
        if v[p] == '=' {
            return Some(p);
        }
        p = p + 1;
    }
    None
}

/// The optional name header: a run of `=`, free text, a closing run of
/// `=`.  When any part is missing the attempt consumes nothing and the
/// position is handed back unchanged, so the same text can be read as the
/// start of the column header.  The name is the free text with its
/// surrounding Unicode whitespace removed.
pub open spec fn spec_parse_name(s: Seq<char>, pos: int) -> (int, Option<Seq<char>>) {
    let a = spec_skip_ws(s, pos);
    let e1 = spec_eq_run_end(s, a);
    if e1 == a {
        (pos, None)
    } else {
        match spec_find_eq(s, e1) {
            None => (pos, None),
            Some(q) => if q == e1 {
                (pos, None)
            } else {
                (spec_eq_run_end(s, q), Some(spec_trim(s.subrange(e1, q))))
            },
        }
    }
}

fn parse_name(s: &str, v: &[char], pos: usize) -> (r: (usize, Option<String>))
    requires
        v@ == s@,
        pos <= v@.len(),
    ensures
        r.0 as int == spec_parse_name(v@, pos as int).0,
        match r.1 {
            Some(n) => spec_parse_name(v@, pos as int).1 == Some(n@),
            None => spec_parse_name(v@, pos as int).1 is None,
        },
        pos <= r.0 <= v@.len(),
{
    let a = skip_ws(v, pos);
    let e1 = eq_run_end(v, a);
    if e1 == a {
        return (pos, None);
    }
    let q = match find_eq(v, e1) {
        None => {
            return (pos, None);
        },
        Some(q) => q,
    };
    if q == e1 {
        return (pos, None);
    }
    let e2 = eq_run_end(v, q);
    let ghost t = v@.subrange(e1 as int, q as int);
    let mut b = e1;
    while b < q && v[b].is_whitespace()
        invariant
            e1 <= b <= q <= v@.len(),
            t == v@.subrange(e1 as int, q as int),
            forall|k: int| e1 <= k < b ==> is_unicode_ws(v@[k]),
        decreases q - b,
    {
        b = b + 1;
    }
    proof {
        assert(forall|k: int| 0 <= k < b - e1 ==> is_unicode_ws(t[k]));
        lemma_trim_start_from(t, b - e1);
        assert(trim_start_idx(t, 0) == b - e1);
    }
    if b == q {
        let name = String::new();
        proof {
            assert(trim_start_idx(t, 0) == t.len());
            lemma_trim_end_le(t, t.len() as int);
            assert(spec_trim(t) =~= Seq::<char>::empty());
        }
        return (e2, Some(name));
    }
    let mut e = q;
    while e > b && v[e - 1].is_whitespace()
        invariant
            b <= e <= q,
            q <= v@.len(),
            t == v@.subrange(e1 as int, q as int),
            e1 <= b < q,
            !is_unicode_ws(t[b - e1]),
            forall|k: int| e <= k < q ==> is_unicode_ws(v@[k]),
        decreases e,
    {
        e = e - 1;
    }
    proof {
        assert(forall|k: int| e - e1 <= k < t.len() ==> is_unicode_ws(t[k]));
        lemma_trim_end_from(t, e - e1);
        assert(e > b);
        assert(!is_unicode_ws(t[e - e1 - 1]));
        assert(trim_end_idx(t, t.len() as int) == e - e1);
        assert(spec_trim(t) == t.subrange(b - e1, e - e1));
        assert(t.subrange(b - e1, e - e1) =~= v@.subrange(b as int, e as int));
    }
    let sub = s.substring_char(b, e);
    let name = String::from_str(sub);
    (e2, Some(name))
}

/// One histogram section: optional name header, column header, blank
/// lines, rows, and the three aggregate lines, each pair separated by at
/// least one line ending.
pub open spec fn spec_section(s: Seq<char>, pos: int) -> Option<(int, HgrmView)> {
    let (p1, name) = spec_parse_name(s, pos);
    match spec_column_header(s, p1) {
        None => None,
        Some(hd) => {
            let q1 = spec_skip_line_endings(s, hd);
            match spec_rows(s, q1) {
                None => None,
                Some((r_end, rows)) => if spec_line_ending(s, r_end) is None {
                    None
                } else {
                    let a0 = spec_skip_line_endings(s, r_end);
                    match spec_agg_dd(s, a0, mean_lit(), std_deviation_lit()) {
                        None => None,
                        Some((a1, mean, std_deviation)) => if spec_line_ending(s, a1) is None {
                            None
                        } else {
                            let b0 = spec_skip_line_endings(s, a1);
                            match spec_agg_du(s, b0, max_lit(), total_count_label_lit()) {
                                None => None,
                                Some((b1, max, total_count)) => if spec_line_ending(s, b1) is None {
                                    None
                                } else {
                                    let c0 = spec_skip_line_endings(s, b1);
                                    match spec_agg_uu(s, c0, buckets_lit(), sub_buckets_lit()) {
                                        None => None,
                                        Some((c1, buckets, sub_buckets)) => Some(
                                            (
                                                c1,
                                                HgrmView {
                                                    name,
                                                    percentiles: rows,
                                                    mean,
                                                    std_deviation,
                                                    max,
                                                    total_count,
                                                    buckets,
                                                    sub_buckets,
                                                },
                                            ),
                                        ),
                                    }
                                },
                            }
                        },
                    }
                },
            }
        },
    }
}

fn parse_section(s: &str, v: &[char], pos: usize) -> (r: Option<(usize, HGRM)>)
    requires
        v@ == s@,
        pos <= v@.len(),
    ensures
        match r {
            Some((p, h)) => spec_section(v@, pos as int) == Some((p as int, h@)) && pos < p <= v@
                .len() && h.wf() && h@.percentiles.len() > 0,
            None => spec_section(v@, pos as int) is None,
        },
{
    let (p1, name) = parse_name(s, v, pos);
    let hd = match parse_column_header(v, p1) {
        None => {
            return None;
        },
        Some(x) => x,
    };
    let q1 = skip_line_endings(v, hd);
    let (r_end, rows) = match parse_rows(v, q1) {
        None => {
            return None;
        },
        Some(x) => x,
    };
    match parse_line_ending(v, r_end) {
        None => {
            return None;
        },
        Some(_) => {},
    }
    let a0 = skip_line_endings(v, r_end);
    let t1 = lit_mean();
    let t2 = lit_std_deviation();
    let (a1, mean, std_deviation) = match parse_agg_dd(v, a0, t1.as_slice(), t2.as_slice()) {
        None => {
            return None;
        },
        Some(x) => x,
    };
    match parse_line_ending(v, a1) {
        None => {
            return None;
        },
        Some(_) => {},
    }
    let b0 = skip_line_endings(v, a1);
    let t1 = lit_max();
    let t2 = lit_total_count_label();
    let (b1, max, total_count) = match parse_agg_du(v, b0, t1.as_slice(), t2.as_slice()) {
        None => {
            return None;
        },
        Some(x) => x,
    };
    match parse_line_ending(v, b1) {
        None => {
            return None;
        },
        Some(_) => {},
    }
    let c0 = skip_line_endings(v, b1);
    let t1 = lit_buckets();
    let t2 = lit_sub_buckets();
    let (c1, buckets, sub_buckets) = match parse_agg_uu(v, c0, t1.as_slice(), t2.as_slice()) {
        None => {
            return None;
        },
        Some(x) => x,
    };
    let h = HGRM {
        name,
        percentiles: rows,
        mean,
        std_deviation,
        max,
        total_count,
        buckets,
        sub_buckets,
    };
    proof {
        assert(h@ =~= spec_section(v@, pos as int).unwrap().1);
        assert(h.wf());
    }
    Some((c1, h))
}

/// The sections that follow the first one.  The repetition stops at the
/// first position where no further section matches; what is left there
/// stays unconsumed.
pub open spec fn spec_more_sections(s: Seq<char>, pos: int) -> (int, Seq<HgrmView>)
    decreases s.len() - pos,
{
    match spec_section(s, pos) {
        None => (pos, Seq::empty()),
        Some((p, h)) => if pos < p <= s.len() {
            let (e, rest) = spec_more_sections(s, p);
            (e, seq![h] + rest)
        } else {
            (pos, Seq::empty())
        },
    }
}

/// One or more sections, concatenated without any required separator.
pub open spec fn spec_sections(s: Seq<char>, pos: int) -> Option<(int, Seq<HgrmView>)> {
    match spec_section(s, pos) {
        None => None,
        Some((p, h)) => {
            let (e, rest) = spec_more_sections(s, p);
            Some((e, seq![h] + rest))
        },
    }
}

/// The meaning of a document: the histograms of the sections that match,
/// in document order, or `None` when no section matches at the start.
/// Trailing text after the last matching section carries no meaning.
pub open spec fn spec_parse(t: Seq<char>) -> Option<Seq<HgrmView>> {
    match spec_sections(t, 0) {
        None => None,
        Some((e, hs)) => Some(hs),
    }
}

/// Relies on str::chars: the characters of the string in order, which is
/// exactly the string's view.
#[verifier::external_body]
fn chars_of(s: &str) -> (v: Vec<char>)
    ensures
        v@ == s@,
{
    s.chars().collect()
}

/// Parse a whole document.
///
/// Succeeds exactly when at least one section matches at the start of the
/// text, and then returns every section that matches, in document order,
/// with the exact field values the grammar read; trailing unmatched text
/// is ignored.  Fails with `ParseFailure` exactly when `spec_parse` has
/// no value for the text.
pub fn parse(s: &str) -> (r: Result<HGRMs, ParseFailure>)
    ensures
        match r {
            Ok(hs) => {
                &&& spec_parse(s@) == Some(hs@)
                &&& hs@.len() > 0
                &&& hs.wf()
                &&& forall|i: int| 0 <= i < hs@.len() ==> (#[trigger] hs@[i]).percentiles.len() > 0
            },
            Err(_) => spec_parse(s@) is None,
        },
{
    let v = chars_of(s);
    let vs = v.as_slice();
    let (p1, first) = match parse_section(s, vs, 0) {
        None => {
            return Err(ParseFailure);
        },
        Some(x) => x,
    };
    let mut out: Vec<HGRM> = Vec::new();
    out.push(first);
    let mut p = p1;
    loop
        invariant
            v@ == s@,
            vs@ == v@,
            0 < p <= v@.len(),
            out@.len() >= 1,
            spec_sections(v@, 0) is Some,
            spec_sections(v@, 0).unwrap().0 == spec_more_sections(v@, p as int).0,
            spec_sections(v@, 0).unwrap().1 == out@.map(|i: int, h: HGRM| h@)
                + spec_more_sections(v@, p as int).1,
            forall|i: int|
                0 <= i < out@.len() ==> (#[trigger] out@[i]).wf() && out@[i]@.percentiles.len()
                    > 0,
        decreases v@.len() - p,
    {
        match parse_section(s, vs, p) {
            None => {
                proof {
                    assert(spec_more_sections(v@, p as int) == (
                        p as int,
                        Seq::<HgrmView>::empty(),
                    ));
                    assert(out@.map(|i: int, h: HGRM| h@) + Seq::<HgrmView>::empty() =~= out@.map(
                        |i: int, h: HGRM| h@,
                    ));
                }
                let hs = HGRMs::new(out);
                proof {
                    assert(hs@ =~= spec_sections(v@, 0).unwrap().1);
                    assert forall|i: int| 0 <= i < hs.0@.len() implies (#[trigger] hs.0@[i]).wf()
                        by {
                        assert(hs.0@[i] == out@[i]);
                    }
                    assert forall|i: int| 0 <= i < hs@.len() implies (
                    #[trigger] hs@[i]).percentiles.len() > 0 by {
                        assert(hs@[i] == out@[i]@);
                    }
                }
                return Ok(hs);
            },
            Some((p2, h)) => {
                proof {
                    let f = |i: int, hh: HGRM| hh@;
                    let (e, rest) = spec_more_sections(v@, p2 as int);
                    assert(spec_more_sections(v@, p as int) == (e, seq![h@] + rest));
                    assert(out@.push(h).map(f) =~= out@.map(f).push(h@));
                    assert(out@.map(f).push(h@) + rest =~= out@.map(f) + (seq![h@] + rest));
                }
                out.push(h);
                p = p2;
            },
        }
    }
}

// ---------------------------------------------------------------------------
// Bounds of the spec rules: a rule that matches consumes forward and never
// runs past the end of the text.
// ---------------------------------------------------------------------------
proof fn lemma_decimal_bounds(s: Seq<char>, pos: int)
    requires
        0 <= pos <= s.len(),
    ensures
        spec_decimal(s, pos) matches Some((p, d)) ==> pos < p <= s.len(),
{
    lemma_digits_end_bounds(s, pos);
    let e1 = spec_digits_end(s, pos);
    if e1 < s.len() {
        lemma_digits_end_bounds(s, e1 + 1);
    }
}

proof fn lemma_u64_bounds(s: Seq<char>, pos: int)
    requires
        0 <= pos <= s.len(),
    ensures
        spec_u64_token(s, pos) matches Some((p, n)) ==> pos < p <= s.len(),
{
    lemma_digits_end_bounds(s, pos);
}

proof fn lemma_one_percentile_bounds(s: Seq<char>, pos: int)
    requires
        0 <= pos <= s.len(),
    ensures
        spec_one_percentile(s, pos) matches Some((p, o)) ==> pos < p <= s.len(),
{
    lemma_decimal_bounds(s, pos);
}

proof fn lemma_row_bounds(s: Seq<char>, pos: int)
    requires
        0 <= pos <= s.len(),
    ensures
        spec_row(s, pos) matches Some((p, row)) ==> pos <= p <= s.len(),
{
    lemma_skip_ws_bounds(s, pos);
    let a = spec_skip_ws(s, pos);
    lemma_decimal_bounds(s, a);
    match spec_decimal(s, a) {
        None => {},
        Some((b, _)) => {
            lemma_skip_ws_bounds(s, b);
            let c = spec_skip_ws(s, b);
            lemma_decimal_bounds(s, c);
            match spec_decimal(s, c) {
                None => {},
                Some((d, _)) => {
                    lemma_skip_ws_bounds(s, d);
                    let e = spec_skip_ws(s, d);
                    lemma_u64_bounds(s, e);
                    match spec_u64_token(s, e) {
                        None => {},
                        Some((f, _)) => {
                            lemma_skip_ws_bounds(s, f);
                            let g = spec_skip_ws(s, f);
                            lemma_one_percentile_bounds(s, g);
                        },
                    }
                },
            }
        },
    }
}

proof fn lemma_rows_bounds(s: Seq<char>, pos: int)
    requires
        0 <= pos <= s.len(),
    ensures
        spec_rows(s, pos) matches Some((p, rows)) ==> pos <= p <= s.len() && rows.len() > 0,
{
    lemma_row_bounds(s, pos);
    match spec_row(s, pos) {
        None => {},
        Some((p1, _)) => {
            lemma_more_rows_bounds(s, p1);
        },
    }
}

proof fn lemma_agg_label_bounds(s: Seq<char>, pos: int, title: Seq<char>)
    requires
        0 <= pos <= s.len(),
    ensures
        spec_agg_label(s, pos, title) matches Some(p) ==> pos <= p <= s.len(),
{
    match spec_tag(s, pos, title) {
        None => {},
        Some(a) => {
            lemma_skip_ws_bounds(s, a);
            let b = spec_skip_ws(s, a);
            if b < s.len() && s[b] == '=' {
                lemma_skip_ws_bounds(s, b + 1);
            }
        },
    }
}

proof fn lemma_agg_sep_bounds(s: Seq<char>, pos: int)
    requires
        0 <= pos <= s.len(),
    ensures
        spec_agg_sep(s, pos) matches Some(p) ==> pos <= p <= s.len(),
{
    lemma_skip_ws_bounds(s, pos);
    let a = spec_skip_ws(s, pos);
    if a < s.len() && s[a] == ',' {
        lemma_skip_ws_bounds(s, a + 1);
    }
}

proof fn lemma_agg_dd_bounds(s: Seq<char>, pos: int, t1: Seq<char>, t2: Seq<char>)
    requires
        0 <= pos <= s.len(),
    ensures
        spec_agg_dd(s, pos, t1, t2) matches Some((p, x, y)) ==> pos < p <= s.len(),
{
    match spec_tag(s, pos, seq!['#', '[']) {
        None => {},
        Some(o) => {
            lemma_agg_label_bounds(s, o, t1);
            match spec_agg_label(s, o, t1) {
                None => {},
                Some(a) => {
                    lemma_decimal_bounds(s, a);
                    match spec_decimal(s, a) {
                        None => {},
                        Some((b, _)) => {
                            lemma_agg_sep_bounds(s, b);
                            match spec_agg_sep(s, b) {
                                None => {},
                                Some(c) => {
                                    lemma_agg_label_bounds(s, c, t2);
                                    match spec_agg_label(s, c, t2) {
                                        None => {},
                                        Some(d) => {
                                            lemma_decimal_bounds(s, d);
                                        },
                                    }
                                },
                            }
                        },
                    }
                },
            }
        },
    }
}

proof fn lemma_agg_du_bounds(s: Seq<char>, pos: int, t1: Seq<char>, t2: Seq<char>)
    requires
        0 <= pos <= s.len(),
    ensures
        spec_agg_du(s, pos, t1, t2) matches Some((p, x, y)) ==> pos < p <= s.len(),
{
    match spec_tag(s, pos, seq!['#', '[']) {
        None => {},
        Some(o) => {
            lemma_agg_label_bounds(s, o, t1);
            match spec_agg_label(s, o, t1) {
                None => {},
                Some(a) => {
                    lemma_decimal_bounds(s, a);
                    match spec_decimal(s, a) {
                        None => {},
                        Some((b, _)) => {
                            lemma_agg_sep_bounds(s, b);
                            match spec_agg_sep(s, b) {
                                None => {},
                                Some(c) => {
                                    lemma_agg_label_bounds(s, c, t2);
                                    match spec_agg_label(s, c, t2) {
                                        None => {},
                                        Some(d) => {
                                            lemma_u64_bounds(s, d);
                                        },
                                    }
                                },
                            }
                        },
                    }
                },
            }
        },
    }
}

proof fn lemma_agg_uu_bounds(s: Seq<char>, pos: int, t1: Seq<char>, t2: Seq<char>)
    requires
        0 <= pos <= s.len(),
    ensures
        spec_agg_uu(s, pos, t1, t2) matches Some((p, x, y)) ==> pos < p <= s.len(),
{
    match spec_tag(s, pos, seq!['#', '[']) {
        None => {},
        Some(o) => {
            lemma_agg_label_bounds(s, o, t1);
            match spec_agg_label(s, o, t1) {
                None => {},
                Some(a) => {
                    lemma_u64_bounds(s, a);
                    match spec_u64_token(s, a) {
                        None => {},
                        Some((b, _)) => {
                            lemma_agg_sep_bounds(s, b);
                            match spec_agg_sep(s, b) {
                                None => {},
                                Some(c) => {
                                    lemma_agg_label_bounds(s, c, t2);
                                    match spec_agg_label(s, c, t2) {
                                        None => {},
                                        Some(d) => {
                                            lemma_u64_bounds(s, d);
                                        },
                                    }
                                },
                            }
                        },
                    }
                },
            }
        },
    }
}

proof fn lemma_eq_run_bounds(s: Seq<char>, pos: int)
    requires
        0 <= pos <= s.len(),
    ensures
        pos <= spec_eq_run_end(s, pos) <= s.len(),
    decreases s.len() - pos,
{
    if pos < s.len() && s[pos] == '=' {
        lemma_eq_run_bounds(s, pos + 1);
    }
}

proof fn lemma_find_eq_bounds(s: Seq<char>, pos: int)
    requires
        0 <= pos <= s.len(),
    ensures
        spec_find_eq(s, pos) matches Some(q) ==> pos <= q < s.len(),
    decreases s.len() - pos,
{
    if pos < s.len() && s[pos] != '=' {
        lemma_find_eq_bounds(s, pos + 1);
    }
}

proof fn lemma_parse_name_bounds(s: Seq<char>, pos: int)
    requires
        0 <= pos <= s.len(),
    ensures
        pos <= spec_parse_name(s, pos).0 <= s.len(),
{
    lemma_skip_ws_bounds(s, pos);
    let a = spec_skip_ws(s, pos);
    lemma_eq_run_bounds(s, a);
    let e1 = spec_eq_run_end(s, a);
    if e1 != a {
        lemma_find_eq_bounds(s, e1);
        match spec_find_eq(s, e1) {
            None => {},
            Some(q) => {
                lemma_eq_run_bounds(s, q);
            },
        }
    }
}

proof fn lemma_column_header_bounds(s: Seq<char>, pos: int)
    requires
        0 <= pos <= s.len(),
    ensures
        spec_column_header(s, pos) matches Some(p) ==> pos < p <= s.len(),
{
    lemma_skip_ws_bounds(s, pos);
    let a = spec_skip_ws(s, pos);
    match spec_tag(s, a, value_lit()) {
        None => {},
        Some(b) => {
            lemma_skip_ws_bounds(s, b);
            let c = spec_skip_ws(s, b);
            match spec_tag(s, c, percentile_lit()) {
                None => {},
                Some(d) => {
                    lemma_skip_ws_bounds(s, d);
                    let e = spec_skip_ws(s, d);
                    match spec_tag(s, e, total_count_lit()) {
                        None => {},
                        Some(f) => {
                            lemma_skip_ws_bounds(s, f);
                        },
                    }
                },
            }
        },
    }
}

/// A section that matches consumes at least one character, stays within
/// the text, and yields a well-formed histogram with at least one row.
proof fn lemma_section_props(s: Seq<char>, pos: int)
    requires
        0 <= pos <= s.len(),
    ensures
        spec_section(s, pos) matches Some((p, h)) ==> pos < p <= s.len() && h.percentiles.len()
            > 0,
{
    lemma_parse_name_bounds(s, pos);
    let (p1, name) = spec_parse_name(s, pos);
    lemma_column_header_bounds(s, p1);
    match spec_column_header(s, p1) {
        None => {},
        Some(hd) => {
            lemma_skip_line_endings_bounds(s, hd);
            let q1 = spec_skip_line_endings(s, hd);
            lemma_rows_bounds(s, q1);
            match spec_rows(s, q1) {
                None => {},
                Some((r_end, rows)) => {
                    lemma_more_rows_bounds(s, q1);
                    match spec_row(s, q1) {
                        None => {},
                        Some((rp1, _)) => {
                            lemma_more_rows_bounds(s, rp1);
                        },
                    }
                    lemma_skip_line_endings_bounds(s, r_end);
                    let a0 = spec_skip_line_endings(s, r_end);
                    lemma_agg_dd_bounds(s, a0, mean_lit(), std_deviation_lit());
                    match spec_agg_dd(s, a0, mean_lit(), std_deviation_lit()) {
                        None => {},
                        Some((a1, _, _)) => {
                            lemma_skip_line_endings_bounds(s, a1);
                            let b0 = spec_skip_line_endings(s, a1);
                            lemma_agg_du_bounds(s, b0, max_lit(), total_count_label_lit());
                            match spec_agg_du(s, b0, max_lit(), total_count_label_lit()) {
                                None => {},
                                Some((b1, _, _)) => {
                                    lemma_skip_line_endings_bounds(s, b1);
                                    let c0 = spec_skip_line_endings(s, b1);
                                    lemma_agg_uu_bounds(s, c0, buckets_lit(), sub_buckets_lit());
                                },
                            }
                        },
                    }
                },
            }
        },
    }
}

// ---------------------------------------------------------------------------
// Laws of the grammar.
// ---------------------------------------------------------------------------
/// In the one-percentile column, the literal token `inf` reads as the
/// `Inf` variant whenever no decimal-shaped token stands at the position.
pub proof fn lemma_one_percentile_reads_inf(s: Seq<char>, pos: int)
    requires
        spec_decimal_shape(s, pos) is None,
        spec_tag(s, pos, seq!['i', 'n', 'f']) is Some,
    ensures
        spec_one_percentile(s, pos) == Some((pos + 3, OnePercentileView::Inf)),
{
}

/// In the one-percentile column, any decimal-shaped token reads as the
/// `Value` variant holding exactly that decimal; the field fails only
/// when it is neither decimal-shaped nor the literal `inf`.
pub proof fn lemma_one_percentile_reads_value(s: Seq<char>, pos: int)
    requires
        spec_decimal_shape(s, pos) is Some,
    ensures
        spec_one_percentile(s, pos) == Some(
            (
                spec_decimal(s, pos).unwrap().0,
                OnePercentileView::Value(spec_decimal(s, pos).unwrap().1),
            ),
        ),
{
}

/// A numeric token without a literal point is rejected by the
/// decimal-value rule, however many digits it has.
pub proof fn lemma_bare_integer_rejected(s: Seq<char>, pos: int)
    requires
        0 <= pos <= s.len(),
        spec_digits_end(s, pos) > pos,
        spec_digits_end(s, pos) == s.len() || s[spec_digits_end(s, pos)] != '.',
    ensures
        spec_decimal(s, pos) is None,
{
}

/// A section's name is exactly what the optional header rule produced:
/// the trimmed header text when a header matched, absent otherwise.  No
/// header outcome can fail a section; only the rules after it can.
pub proof fn lemma_section_name(s: Seq<char>, pos: int)
    ensures
        spec_section(s, pos) matches Some((p, h)) ==> h.name == spec_parse_name(s, pos).1,
{
}

/// When the column header does not match after the optional name header,
/// the whole section fails: there is no fallback.
pub proof fn lemma_header_required(s: Seq<char>, pos: int)
    requires
        spec_column_header(s, spec_parse_name(s, pos).0) is None,
    ensures
        spec_section(s, pos) is None,
{
}

/// A document that is one section, with nothing further matching behind
/// it, parses to exactly that section's histogram.
pub proof fn lemma_single_section(s: Seq<char>)
    requires
        spec_section(s, 0) is Some,
        spec_section(s, spec_section(s, 0).unwrap().0) is None,
    ensures
        spec_parse(s) == Some(seq![spec_section(s, 0).unwrap().1]),
{
    let (p1, h1) = spec_section(s, 0).unwrap();
    lemma_section_props(s, 0);
    assert(spec_more_sections(s, p1) == (p1, Seq::<HgrmView>::empty()));
    assert(seq![h1] + Seq::<HgrmView>::empty() =~= seq![h1]);
}

/// Two concatenated sections, with nothing further matching, parse to
/// exactly their two histograms in document order.
pub proof fn lemma_two_sections(s: Seq<char>)
    requires
        spec_section(s, 0) is Some,
        spec_section(s, spec_section(s, 0).unwrap().0) is Some,
        spec_section(s, spec_section(s, spec_section(s, 0).unwrap().0).unwrap().0) is None,
    ensures
        spec_parse(s) == Some(
            seq![
                spec_section(s, 0).unwrap().1,
                spec_section(s, spec_section(s, 0).unwrap().0).unwrap().1,
            ],
        ),
{
    let (p1, h1) = spec_section(s, 0).unwrap();
    lemma_section_props(s, 0);
    let (p2, h2) = spec_section(s, p1).unwrap();
    lemma_section_props(s, p1);
    assert(spec_more_sections(s, p2) == (p2, Seq::<HgrmView>::empty()));
    assert(spec_more_sections(s, p1) == (p2, seq![h2] + Seq::<HgrmView>::empty()));
    assert(spec_sections(s, 0) == Some((p2, seq![h1] + (seq![h2] + Seq::<HgrmView>::empty()))));
    assert(seq![h1] + (seq![h2] + Seq::<HgrmView>::empty()) =~= seq![h1, h2]);
}

} // verus!
