//! Data model for parsed latency histograms: exact decimal numbers, one
//! percentile row, one histogram section, and the ordered collection of
//! sections parsed from a document.
use vstd::prelude::*;
use vstd::string::StringExecFns;

verus! {

/// The value of a decimal number: `mantissa / 10^scale`, as mathematical
/// integers.
pub ghost struct DecimalView {
    pub mantissa: nat,
    pub scale: nat,
}

/// An exact non-negative decimal number of any size: the decimal digits
/// of its mantissa, most significant first and without leading zeros,
/// and the number of fraction digits.  A token is kept exactly as
/// written up to leading zeros, so `1.00` has mantissa 100 and scale 2
/// and is distinct from `1.0`, while `0.5` and `00.5` agree.
#[derive(Clone, Debug)]
pub struct Decimal {
    pub digits: Vec<u8>,
    pub scale: usize,
}

impl View for Decimal {
    type V = DecimalView;

    open spec fn view(&self) -> DecimalView {
        DecimalView { mantissa: dv(self.digits@), scale: self.scale as nat }
    }
}

/// The number a digit sequence denotes, most significant digit first.
pub open spec fn dv(s: Seq<u8>) -> nat
    decreases s.len(),
{
    if s.len() == 0 {
        0
    } else {
        dv(s.drop_last()) * 10 + s.last() as nat
    }
}

/// `n` zero digits.
pub open spec fn zero_digits(n: nat) -> Seq<u8> {
    Seq::new(n, |i: int| 0u8)
}

/// `10^e` as a mathematical integer.
pub open spec fn pow10(e: nat) -> nat
    decreases e,
{
    if e == 0 {
        1
    } else {
        10 * pow10((e - 1) as nat)
    }
}

/// `a <= b` as rationals: `a.mantissa / 10^a.scale <= b.mantissa / 10^b.scale`.
pub open spec fn dec_le(a: DecimalView, b: DecimalView) -> bool {
    a.mantissa * pow10(b.scale) <= b.mantissa * pow10(a.scale)
}

/// `a < b` as rationals.
pub open spec fn dec_lt(a: DecimalView, b: DecimalView) -> bool {
    a.mantissa * pow10(b.scale) < b.mantissa * pow10(a.scale)
}

proof fn lemma_pow10_pos(e: nat)
    ensures
        pow10(e) >= 1,
    decreases e,
{
    if e > 0 {
        lemma_pow10_pos((e - 1) as nat);
    }
}

proof fn lemma_pow10_mono(a: nat, b: nat)
    requires
        a <= b,
    ensures
        pow10(a) <= pow10(b),
    decreases b,
{
    if a < b {
        lemma_pow10_mono(a, (b - 1) as nat);
        lemma_pow10_pos((b - 1) as nat);
    }
}

/// Transitivity of the rational order on decimal values.
proof fn lemma_dec_le_trans(a: DecimalView, b: DecimalView, c: DecimalView)
    requires
        dec_le(a, b),
        dec_le(b, c),
    ensures
        dec_le(a, c),
{
    lemma_pow10_pos(a.scale);
    lemma_pow10_pos(b.scale);
    lemma_pow10_pos(c.scale);
    assert(dec_le(a, c)) by (nonlinear_arith)
        requires
            a.mantissa * pow10(b.scale) <= b.mantissa * pow10(a.scale),
            b.mantissa * pow10(c.scale) <= c.mantissa * pow10(b.scale),
            pow10(a.scale) >= 1,
            pow10(b.scale) >= 1,
            pow10(c.scale) >= 1,
            dec_le(a, c) == (a.mantissa * pow10(c.scale) <= c.mantissa * pow10(a.scale)),
    {
    }
}

/// Appending a digit multiplies the denoted number by ten and adds it.
proof fn lemma_dv_push(s: Seq<u8>, d: u8)
    ensures
        dv(s.push(d)) == dv(s) * 10 + d,
{
    assert(s.push(d).drop_last() =~= s);
    assert(s.push(d).last() == d);
}

/// Splitting a digit sequence splits its number at the matching power of
/// ten.
proof fn lemma_dv_split(a: Seq<u8>, b: Seq<u8>)
    ensures
        dv(a + b) == dv(a) * pow10(b.len()) + dv(b),
    decreases b.len(),
{
    if b.len() == 0 {
        assert(a + b =~= a);
        assert(pow10(0) == 1);
    } else {
        let b0 = b.drop_last();
        assert((a + b).drop_last() =~= a + b0);
        assert((a + b).last() == b.last());
        lemma_dv_split(a, b0);
        assert((dv(a) * pow10(b0.len()) + dv(b0)) * 10 + b.last() == dv(a) * (10 * pow10(
            b0.len(),
        )) + (dv(b0) * 10 + b.last())) by (nonlinear_arith);
        assert(pow10(b.len()) == 10 * pow10(b0.len()));
    }
}

proof fn lemma_dv_zero_digits(n: nat)
    ensures
        dv(zero_digits(n)) == 0,
    decreases n,
{
    if n > 0 {
        assert(zero_digits(n).drop_last() =~= zero_digits((n - 1) as nat));
        assert(zero_digits(n).last() == 0);
        lemma_dv_zero_digits((n - 1) as nat);
    }
}

/// Trailing zeros shift the number by a power of ten.
proof fn lemma_dv_pad(s: Seq<u8>, n: nat)
    ensures
        dv(s + zero_digits(n)) == dv(s) * pow10(n),
{
    lemma_dv_split(s, zero_digits(n));
    lemma_dv_zero_digits(n);
}

/// A sequence of decimal digits denotes less than ten to its length.
proof fn lemma_dv_upper(s: Seq<u8>)
    requires
        forall|i: int| 0 <= i < s.len() ==> s[i] <= 9,
    ensures
        dv(s) < pow10(s.len()),
    decreases s.len(),
{
    if s.len() > 0 {
        lemma_dv_upper(s.drop_last());
        assert(dv(s.drop_last()) * 10 + s.last() < 10 * pow10(s.drop_last().len()))
            by (nonlinear_arith)
            requires
                dv(s.drop_last()) < pow10(s.drop_last().len()),
                s.last() <= 9,
        {
        }
        assert(pow10(s.len()) == 10 * pow10(s.drop_last().len()));
    }
}

/// A digit sequence with a nonzero leading digit denotes at least ten to
/// one less than its length.
proof fn lemma_dv_lower(s: Seq<u8>)
    requires
        s.len() >= 1,
        s[0] != 0,
    ensures
        dv(s) >= pow10((s.len() - 1) as nat),
    decreases s.len(),
{
    if s.len() == 1 {
        assert(s.drop_last() =~= Seq::<u8>::empty());
        assert(s.last() == s[0]);
    } else {
        let s0 = s.drop_last();
        assert(s0[0] == s[0]);
        lemma_dv_lower(s0);
        assert(dv(s0) * 10 + s.last() >= 10 * pow10((s0.len() - 1) as nat)) by (nonlinear_arith)
            requires
                dv(s0) >= pow10((s0.len() - 1) as nat),
        {
        }
        assert(pow10((s.len() - 1) as nat) == 10 * pow10((s0.len() - 1) as nat));
    }
}

/// A shorter digit sequence denotes less than a longer one whose leading
/// digit is nonzero.
proof fn lemma_dv_len_lt(s: Seq<u8>, t: Seq<u8>)
    requires
        forall|i: int| 0 <= i < s.len() ==> s[i] <= 9,
        s.len() < t.len(),
        t[0] != 0,
    ensures
        dv(s) < dv(t),
{
    lemma_dv_upper(s);
    lemma_dv_lower(t);
    lemma_pow10_mono(s.len(), (t.len() - 1) as nat);
}

/// Among equal-length digit sequences, the first differing digit decides
/// the numeric order.
proof fn lemma_dv_lex_lt(s: Seq<u8>, t: Seq<u8>, k: int)
    requires
        s.len() == t.len(),
        forall|i: int| 0 <= i < s.len() ==> s[i] <= 9,
        forall|i: int| 0 <= i < t.len() ==> t[i] <= 9,
        0 <= k < s.len(),
        forall|i: int| 0 <= i < k ==> s[i] == t[i],
        s[k] < t[k],
    ensures
        dv(s) < dv(t),
{
    let n = s.len() as int;
    let sp = s.subrange(0, k + 1);
    let sr = s.subrange(k + 1, n);
    let tp = t.subrange(0, k + 1);
    let tr = t.subrange(k + 1, n);
    assert(s =~= sp + sr);
    assert(t =~= tp + tr);
    lemma_dv_split(sp, sr);
    lemma_dv_split(tp, tr);
    assert(sp =~= s.subrange(0, k).push(s[k]));
    assert(tp =~= t.subrange(0, k).push(t[k]));
    lemma_dv_push(s.subrange(0, k), s[k]);
    lemma_dv_push(t.subrange(0, k), t[k]);
    assert(s.subrange(0, k) =~= t.subrange(0, k));
    assert(dv(sp) + 1 <= dv(tp));
    assert(forall|i: int| 0 <= i < sr.len() ==> sr[i] <= 9);
    lemma_dv_upper(sr);
    let p = pow10(sr.len());
    assert(sr.len() == tr.len());
    assert(dv(sp) * p + dv(sr) < dv(tp) * p + dv(tr)) by (nonlinear_arith)
        requires
            dv(sr) < p,
            dv(sp) + 1 <= dv(tp),
            p >= 1,
    {
    }
    lemma_pow10_pos(sr.len());
}

impl Decimal {
    /// The representation invariant: each entry is one decimal digit and
    /// the mantissa carries no leading zero (zero is the empty sequence).
    pub open spec fn wf(self) -> bool {
        &&& forall|i: int| 0 <= i < self.digits@.len() ==> self.digits@[i] <= 9
        &&& self.digits@.len() > 0 ==> self.digits@[0] != 0
    }

    /// The decimal with the given mantissa and scale.
    pub fn new(mantissa: u64, scale: u32) -> (r: Decimal)
        ensures
            r@ == (DecimalView { mantissa: mantissa as nat, scale: scale as nat }),
            r.wf(),
    {
        let mut digits: Vec<u8> = Vec::new();
        let mut n = mantissa;
        proof {
            assert(pow10(0) == 1);
            assert(dv(digits@) == 0);
            assert((mantissa as nat) * 1 == mantissa as nat) by (nonlinear_arith);
        }
        while n > 0
            invariant
                mantissa as nat == (n as nat) * pow10(digits@.len()) + dv(digits@),
                forall|i: int| 0 <= i < digits@.len() ==> digits@[i] <= 9,
                n != 0 || digits@.len() == 0 || digits@[0] != 0,
            decreases n,
        {
            let d = (n % 10) as u8;
            let ghost old_digits = digits@;
            digits.insert(0, d);
            proof {
                assert(digits@ =~= seq![d] + old_digits);
                assert(seq![d].drop_last() =~= Seq::<u8>::empty());
                assert(seq![d].last() == d);
                assert(dv(Seq::<u8>::empty()) == 0);
                assert(dv(seq![d]) == 0 * 10 + d);
                assert(dv(seq![d]) == d);
                lemma_dv_split(seq![d], old_digits);
                assert((n as nat) == ((n / 10) as nat) * 10 + (n % 10) as nat);
                assert(((n / 10) as nat * 10 + d as nat) * pow10(old_digits.len()) + dv(old_digits)
                    == ((n / 10) as nat) * pow10(old_digits.len() + 1) + (d as nat * pow10(
                    old_digits.len(),
                ) + dv(old_digits))) by (nonlinear_arith)
                    requires
                        pow10(old_digits.len() + 1) == 10 * pow10(old_digits.len()),
                {
                }
            }
            n = n / 10;
        }
        Decimal { digits, scale: scale as usize }
    }

    /// The decimal zero, written `0.0`.
    pub fn zero() -> (r: Decimal)
        ensures
            r@ == (DecimalView { mantissa: 0, scale: 1 }),
            r.wf(),
    {
        Decimal { digits: Vec::new(), scale: 1 }
    }

    /// An owned copy with the same digits and scale.
    pub fn dup(&self) -> (r: Decimal)
        ensures
            r.digits@ == self.digits@,
            r.scale == self.scale,
            r@ == self@,
    {
        let mut digits: Vec<u8> = Vec::new();
        let mut k: usize = 0;
        while k < self.digits.len()
            invariant
                0 <= k <= self.digits@.len(),
                digits@ == self.digits@.subrange(0, k as int),
            decreases self.digits@.len() - k,
        {
            digits.push(self.digits[k]);
            proof {
                assert(self.digits@.subrange(0, k + 1) =~= self.digits@.subrange(0, k as int).push(
                    self.digits@[k as int],
                ));
            }
            k = k + 1;
        }
        proof {
            assert(self.digits@.subrange(0, self.digits@.len() as int) =~= self.digits@);
        }
        Decimal { digits, scale: self.scale }
    }

    /// Runtime check of the representation invariant.
    pub fn is_wf(&self) -> (r: bool)
        ensures
            r == self.wf(),
    {
        let mut ok = true;
        if self.digits.len() > 0 && self.digits[0] == 0 {
            ok = false;
        }
        let mut k: usize = 0;
        while k < self.digits.len()
            invariant
                0 <= k <= self.digits@.len(),
                ok == ((self.digits@.len() > 0 ==> self.digits@[0] != 0) && forall|j: int|
                    0 <= j < k ==> self.digits@[j] <= 9),
            decreases self.digits@.len() - k,
        {
            ok = ok && self.digits[k] <= 9;
            k = k + 1;
        }
        ok
    }

    /// `self <= other` as rationals, by comparing the two mantissas after
    /// aligning them with trailing zeros.
    pub fn le(&self, other: &Decimal) -> (r: bool)
        requires
            self.wf(),
            other.wf(),
        ensures
            r == dec_le(self@, other@),
    {
        let ghost pa = self.digits@ + zero_digits(other.scale as nat);
        let ghost pb = other.digits@ + zero_digits(self.scale as nat);
        proof {
            lemma_dv_pad(self.digits@, other.scale as nat);
            lemma_dv_pad(other.digits@, self.scale as nat);
            assert(forall|i: int| 0 <= i < pa.len() ==> pa[i] <= 9);
            assert(forall|i: int| 0 <= i < pb.len() ==> pb[i] <= 9);
        }
        if self.digits.len() == 0 {
            proof {
                assert(dv(self.digits@) == 0);
                assert(self@.mantissa * pow10(other@.scale) == 0) by (nonlinear_arith)
                    requires
                        self@.mantissa == 0,
                {
                }
            }
            return true;
        }
        if other.digits.len() == 0 {
            proof {
                assert(dv(other.digits@) == 0);
                assert(other@.mantissa * pow10(self@.scale) == 0) by (nonlinear_arith)
                    requires
                        other@.mantissa == 0,
                {
                }
                lemma_dv_lower(self.digits@);
                lemma_pow10_pos((self.digits@.len() - 1) as nat);
                lemma_pow10_pos(other.scale as nat);
                assert(dv(self.digits@) * pow10(other.scale as nat) >= 1) by (nonlinear_arith)
                    requires
                        dv(self.digits@) >= 1,
                        pow10(other.scale as nat) >= 1,
                {
                }
            }
            return false;
        }
        let la = self.digits.len() as u128 + other.scale as u128;
        let lb = other.digits.len() as u128 + self.scale as u128;
        if la < lb {
            proof {
                lemma_dv_len_lt(pa, pb);
            }
            return true;
        }
        if lb < la {
            proof {
                lemma_dv_len_lt(pb, pa);
            }
            return false;
        }
        let na = self.digits.len();
        let nb = other.digits.len();
        let kmax = if na > nb {
            na
        } else {
            nb
        };
        let mut k: usize = 0;
        while k < kmax
            invariant
                0 <= k <= kmax,
                kmax == if na > nb {
                    na
                } else {
                    nb
                },
                na == self.digits@.len(),
                nb == other.digits@.len(),
                na > 0,
                nb > 0,
                self.wf(),
                other.wf(),
                pa == self.digits@ + zero_digits(other.scale as nat),
                pb == other.digits@ + zero_digits(self.scale as nat),
                pa.len() == pb.len(),
                kmax <= pa.len(),
                dv(pa) == self@.mantissa * pow10(other@.scale),
                dv(pb) == other@.mantissa * pow10(self@.scale),
                forall|i: int| 0 <= i < k ==> pa[i] == pb[i],
            decreases kmax - k,
        {
            let ak = if k < na {
                self.digits[k]
            } else {
                0
            };
            let bk = if k < nb {
                other.digits[k]
            } else {
                0
            };
            proof {
                assert(pa[k as int] == ak);
                assert(pb[k as int] == bk);
            }
            if ak < bk {
                proof {
                    lemma_dv_lex_lt(pa, pb, k as int);
                }
                return true;
            }
            if bk < ak {
                proof {
                    lemma_dv_lex_lt(pb, pa, k as int);
                }
                return false;
            }
            k = k + 1;
        }
        proof {
            assert forall|i: int| 0 <= i < pa.len() implies pa[i] == pb[i] by {
                if i >= kmax {
                    assert(pa[i] == 0);
                    assert(pb[i] == 0);
                }
            }
            assert(pa =~= pb);
        }
        true
    }

    /// `self < other` as rationals.
    pub fn lt(&self, other: &Decimal) -> (r: bool)
        requires
            self.wf(),
            other.wf(),
        ensures
            r == dec_lt(self@, other@),
    {
        !other.le(self)
    }
}

/// Representation equality of two decimals: same digits, same scale.
pub open spec fn dec_eq_repr(a: Decimal, b: Decimal) -> bool {
    a.digits@ == b.digits@ && a.scale == b.scale
}

impl PartialEq for Decimal {
    /// Structural equality of the written form: `1.0` and `1.00` differ.
    fn eq(&self, other: &Decimal) -> (r: bool) {
        let mut r = self.scale == other.scale && self.digits.len() == other.digits.len();
        if r {
            let mut k: usize = 0;
            while k < self.digits.len()
                invariant
                    0 <= k <= self.digits@.len(),
                    self.digits@.len() == other.digits@.len(),
                    r == (forall|j: int| 0 <= j < k ==> self.digits@[j] == other.digits@[j]),
                decreases self.digits@.len() - k,
            {
                r = r && self.digits[k] == other.digits[k];
                k = k + 1;
            }
        }
        proof {
            if r {
                assert(self.digits@ =~= other.digits@);
            } else if dec_eq_repr(*self, *other) {
                assert(false);
            }
        }
        r
    }
}

impl vstd::std_specs::cmp::PartialEqSpecImpl for Decimal {
    open spec fn obeys_eq_spec() -> bool {
        true
    }

    open spec fn eq_spec(&self, other: &Decimal) -> bool {
        dec_eq_repr(*self, *other)
    }
}

/// The value of the inverse-tail-probability column.
pub ghost enum OnePercentileView {
    Inf,
    Value(DecimalView),
}

/// The inverse-tail-probability column of a row: a decimal number, or the
/// literal token `inf` on the row whose percentile is one.
#[derive(Clone, Debug)]
pub enum OnePercentile {
    Inf,
    Value(Decimal),
}

impl View for OnePercentile {
    type V = OnePercentileView;

    open spec fn view(&self) -> OnePercentileView {
        match self {
            OnePercentile::Inf => OnePercentileView::Inf,
            OnePercentile::Value(d) => OnePercentileView::Value(d@),
        }
    }
}

impl OnePercentile {
    pub open spec fn wf(self) -> bool {
        match self {
            OnePercentile::Inf => true,
            OnePercentile::Value(d) => d.wf(),
        }
    }
}

/// Representation equality of two one-percentile fields.
pub open spec fn onep_eq_repr(a: OnePercentile, b: OnePercentile) -> bool {
    match (a, b) {
        (OnePercentile::Inf, OnePercentile::Inf) => true,
        (OnePercentile::Value(x), OnePercentile::Value(y)) => dec_eq_repr(x, y),
        _ => false,
    }
}

impl PartialEq for OnePercentile {
    fn eq(&self, other: &OnePercentile) -> (r: bool) {
        match (self, other) {
            (OnePercentile::Inf, OnePercentile::Inf) => true,
            (OnePercentile::Value(a), OnePercentile::Value(b)) => *a == *b,
            _ => false,
        }
    }
}

impl vstd::std_specs::cmp::PartialEqSpecImpl for OnePercentile {
    open spec fn obeys_eq_spec() -> bool {
        true
    }

    open spec fn eq_spec(&self, other: &OnePercentile) -> bool {
        onep_eq_repr(*self, *other)
    }
}

/// The values of one table row.
pub ghost struct PercentileView {
    pub value: DecimalView,
    pub percentile: DecimalView,
    pub total_count: u64,
    pub one_percentile: OnePercentileView,
}

/// One table row: latency value, cumulative percentile, cumulative count,
/// and the inverse-tail-probability column.
#[derive(Clone, Debug)]
pub struct Percentile {
    pub value: Decimal,
    pub percentile: Decimal,
    pub total_count: u64,
    pub one_percentile: OnePercentile,
}

impl View for Percentile {
    type V = PercentileView;

    open spec fn view(&self) -> PercentileView {
        PercentileView {
            value: self.value@,
            percentile: self.percentile@,
            total_count: self.total_count,
            one_percentile: self.one_percentile@,
        }
    }
}

impl Percentile {
    pub open spec fn wf(self) -> bool {
        self.value.wf() && self.percentile.wf() && self.one_percentile.wf()
    }

    pub fn new(value: Decimal, percentile: Decimal, total_count: u64, one_percentile: OnePercentile)
        -> (r: Percentile)
        ensures
            r == (Percentile { value, percentile, total_count, one_percentile }),
    {
        Percentile { value, percentile, total_count, one_percentile }
    }
}

/// Representation equality of two rows.
pub open spec fn perc_eq_repr(a: Percentile, b: Percentile) -> bool {
    &&& dec_eq_repr(a.value, b.value)
    &&& dec_eq_repr(a.percentile, b.percentile)
    &&& a.total_count == b.total_count
    &&& onep_eq_repr(a.one_percentile, b.one_percentile)
}

impl PartialEq for Percentile {
    fn eq(&self, other: &Percentile) -> (r: bool) {
        self.value == other.value && self.percentile == other.percentile && self.total_count
            == other.total_count && self.one_percentile == other.one_percentile
    }
}

impl vstd::std_specs::cmp::PartialEqSpecImpl for Percentile {
    open spec fn obeys_eq_spec() -> bool {
        true
    }

    open spec fn eq_spec(&self, other: &Percentile) -> bool {
        perc_eq_repr(*self, *other)
    }
}

/// The values of a sequence of rows.
pub open spec fn rows_view(v: Seq<Percentile>) -> Seq<PercentileView> {
    v.map(|i: int, p: Percentile| p@)
}

/// The mathematical content of one histogram section.
#[verifier::ext_equal]
pub ghost struct HgrmView {
    pub name: Option<Seq<char>>,
    pub percentiles: Seq<PercentileView>,
    pub mean: DecimalView,
    pub std_deviation: DecimalView,
    pub max: DecimalView,
    pub total_count: u64,
    pub buckets: u64,
    pub sub_buckets: u64,
}

/// One parsed histogram section: an optional name, the ordered percentile
/// rows, and the three pairs of summary statistics.
#[derive(Debug)]
pub struct HGRM {
    pub name: Option<String>,
    pub percentiles: Vec<Percentile>,
    pub mean: Decimal,
    pub std_deviation: Decimal,
    pub max: Decimal,
    pub total_count: u64,
    pub buckets: u64,
    pub sub_buckets: u64,
}

impl View for HGRM {
    type V = HgrmView;

    open spec fn view(&self) -> HgrmView {
        HgrmView {
            name: match self.name {
                Some(ref n) => Some(n@),
                None => None,
            },
            percentiles: rows_view(self.percentiles@),
            mean: self.mean@,
            std_deviation: self.std_deviation@,
            max: self.max@,
            total_count: self.total_count,
            buckets: self.buckets,
            sub_buckets: self.sub_buckets,
        }
    }
}

impl HGRM {
    /// Every decimal held anywhere in the histogram is well formed.
    pub open spec fn wf(self) -> bool {
        &&& self.mean.wf()
        &&& self.std_deviation.wf()
        &&& self.max.wf()
        &&& forall|i: int|
            0 <= i < self.percentiles@.len() ==> (#[trigger] self.percentiles@[i]).wf()
    }

    /// An empty histogram, the starting point of the builder chain.
    pub fn new() -> (r: HGRM)
        ensures
            r@ == (HgrmView {
                name: None,
                percentiles: Seq::<PercentileView>::empty(),
                mean: DecimalView { mantissa: 0, scale: 1 },
                std_deviation: DecimalView { mantissa: 0, scale: 1 },
                max: DecimalView { mantissa: 0, scale: 1 },
                total_count: 0u64,
                buckets: 0u64,
                sub_buckets: 0u64,
            }),
    {
        let r = HGRM {
            name: None,
            percentiles: Vec::new(),
            mean: Decimal::zero(),
            std_deviation: Decimal::zero(),
            max: Decimal::zero(),
            total_count: 0,
            buckets: 0,
            sub_buckets: 0,
        };
        proof {
            assert(rows_view(r.percentiles@) =~= Seq::<PercentileView>::empty());
            assert(r@ =~= (HgrmView {
                name: None,
                percentiles: Seq::<PercentileView>::empty(),
                mean: DecimalView { mantissa: 0, scale: 1 },
                std_deviation: DecimalView { mantissa: 0, scale: 1 },
                max: DecimalView { mantissa: 0, scale: 1 },
                total_count: 0u64,
                buckets: 0u64,
                sub_buckets: 0u64,
            }));
        }
        r
    }

    pub fn set_name(self, name: Option<&str>) -> (r: HGRM)
        ensures
            r@ == (HgrmView {
                name: match name {
                    Some(n) => Some(n@),
                    None => None,
                },
                ..self@
            }),
    {
        let new_name = match name {
            Some(n) => Some(String::from_str(n)),
            None => None,
        };
        let r = HGRM { name: new_name, ..self };
        proof {
            assert(r@ =~= (HgrmView {
                name: match name {
                    Some(n) => Some(n@),
                    None => None,
                },
                ..self@
            }));
        }
        r
    }

    pub fn set_mean(self, mean: Decimal) -> (r: HGRM)
        ensures
            r@ == (HgrmView { mean: mean@, ..self@ }),
    {
        let r = HGRM { mean, ..self };
        proof {
            assert(r@ =~= (HgrmView { mean: r.mean@, ..self@ }));
        }
        r
    }

    pub fn set_std_deviation(self, std_deviation: Decimal) -> (r: HGRM)
        ensures
            r@ == (HgrmView { std_deviation: std_deviation@, ..self@ }),
    {
        let r = HGRM { std_deviation, ..self };
        proof {
            assert(r@ =~= (HgrmView { std_deviation: r.std_deviation@, ..self@ }));
        }
        r
    }

    pub fn set_max(self, max: Decimal) -> (r: HGRM)
        ensures
            r@ == (HgrmView { max: max@, ..self@ }),
    {
        let r = HGRM { max, ..self };
        proof {
            assert(r@ =~= (HgrmView { max: r.max@, ..self@ }));
        }
        r
    }

    pub fn set_total_count(self, total_count: u64) -> (r: HGRM)
        ensures
            r@ == (HgrmView { total_count, ..self@ }),
    {
        let r = HGRM { total_count, ..self };
        proof {
            assert(r@ =~= (HgrmView { total_count, ..self@ }));
        }
        r
    }

    pub fn set_buckets(self, buckets: u64) -> (r: HGRM)
        ensures
            r@ == (HgrmView { buckets, ..self@ }),
    {
        let r = HGRM { buckets, ..self };
        proof {
            assert(r@ =~= (HgrmView { buckets, ..self@ }));
        }
        r
    }

    pub fn set_sub_buckets(self, sub_buckets: u64) -> (r: HGRM)
        ensures
            r@ == (HgrmView { sub_buckets, ..self@ }),
    {
        let r = HGRM { sub_buckets, ..self };
        proof {
            assert(r@ =~= (HgrmView { sub_buckets, ..self@ }));
        }
        r
    }

    pub fn set_percentiles(self, percentiles: Vec<Percentile>) -> (r: HGRM)
        ensures
            r@ == (HgrmView { percentiles: rows_view(percentiles@), ..self@ }),
    {
        let r = HGRM { percentiles, ..self };
        proof {
            assert(r@ =~= (HgrmView { percentiles: rows_view(r.percentiles@), ..self@ }));
        }
        r
    }

    pub fn add_percentile(
        self,
        value: Decimal,
        percentile: Decimal,
        total_count: u64,
        one_percentile: OnePercentile,
    ) -> (r: HGRM)
        ensures
            r@ == (HgrmView {
                percentiles: self@.percentiles.push(
                    PercentileView {
                        value: value@,
                        percentile: percentile@,
                        total_count,
                        one_percentile: one_percentile@,
                    },
                ),
                ..self@
            }),
    {
        let ghost pv = PercentileView {
            value: value@,
            percentile: percentile@,
            total_count,
            one_percentile: one_percentile@,
        };
        let mut percentiles = self.percentiles;
        let p = Percentile::new(value, percentile, total_count, one_percentile);
        proof {
            assert(p@ == pv);
        }
        percentiles.push(p);
        let r = HGRM {
            name: self.name,
            percentiles,
            mean: self.mean,
            std_deviation: self.std_deviation,
            max: self.max,
            total_count: self.total_count,
            buckets: self.buckets,
            sub_buckets: self.sub_buckets,
        };
        proof {
            assert(rows_view(r.percentiles@) =~= rows_view(self.percentiles@).push(pv));
            assert(r@ =~= (HgrmView { percentiles: self@.percentiles.push(pv), ..self@ }));
        }
        r
    }

    /// The largest latency value among this histogram's rows.
    pub fn max_latency(&self) -> (r: Decimal)
        requires
            self.percentiles@.len() > 0,
            forall|i: int|
                0 <= i < self.percentiles@.len() ==> (#[trigger] self.percentiles@[i]).value.wf(),
        ensures
            r.wf(),
            exists|i: int|
                0 <= i < self@.percentiles.len() && r@ == (#[trigger] self@.percentiles[i]).value,
            forall|i: int|
                0 <= i < self@.percentiles.len() ==> dec_le(
                    (#[trigger] self@.percentiles[i]).value,
                    r@,
                ),
    {
        let mut best: usize = 0;
        let mut i: usize = 1;
        while i < self.percentiles.len()
            invariant
                0 <= best < i <= self.percentiles@.len(),
                forall|j: int|
                    0 <= j < self.percentiles@.len() ==> (
                    #[trigger] self.percentiles@[j]).value.wf(),
                forall|j: int|
                    0 <= j < i ==> dec_le(
                        (#[trigger] self.percentiles@[j]).value@,
                        self.percentiles@[best as int].value@,
                    ),
            decreases self.percentiles@.len() - i,
        {
            if self.percentiles[best].value.le(&self.percentiles[i].value) {
                proof {
                    assert forall|j: int| 0 <= j < i + 1 implies dec_le(
                        (#[trigger] self.percentiles@[j]).value@,
                        self.percentiles@[i as int].value@,
                    ) by {
                        if j < i {
                            lemma_dec_le_trans(
                                self.percentiles@[j].value@,
                                self.percentiles@[best as int].value@,
                                self.percentiles@[i as int].value@,
                            );
                        }
                    }
                }
                best = i;
            }
            i = i + 1;
        }
        let r = self.percentiles[best].value.dup();
        proof {
            assert(self@.percentiles[best as int] == self.percentiles@[best as int]@);
            assert forall|j: int| 0 <= j < self@.percentiles.len() implies dec_le(
                (#[trigger] self@.percentiles[j]).value,
                r@,
            ) by {
                assert(self@.percentiles[j] == self.percentiles@[j]@);
            }
        }
        r
    }
}

/// Representation equality of two histograms: equal names, equal rows in
/// order, equal statistics.
pub open spec fn hgrm_eq_repr(a: HGRM, b: HGRM) -> bool {
    &&& (match (a.name, b.name) {
        (None, None) => true,
        (Some(x), Some(y)) => x@ == y@,
        _ => false,
    })
    &&& a.percentiles@.len() == b.percentiles@.len()
    &&& forall|i: int|
        0 <= i < a.percentiles@.len() ==> perc_eq_repr(
            #[trigger] a.percentiles@[i],
            b.percentiles@[i],
        )
    &&& dec_eq_repr(a.mean, b.mean)
    &&& dec_eq_repr(a.std_deviation, b.std_deviation)
    &&& dec_eq_repr(a.max, b.max)
    &&& a.total_count == b.total_count
    &&& a.buckets == b.buckets
    &&& a.sub_buckets == b.sub_buckets
}

impl PartialEq for HGRM {
    /// Structural equality: every field, the percentile rows in order.
    fn eq(&self, other: &HGRM) -> (r: bool) {
        let names_eq = match (&self.name, &other.name) {
            (None, None) => true,
            (Some(a), Some(b)) => *a == *b,
            _ => false,
        };
        let mut percs_eq = self.percentiles.len() == other.percentiles.len();
        if percs_eq {
            let mut i: usize = 0;
            while i < self.percentiles.len()
                invariant
                    0 <= i <= self.percentiles@.len(),
                    self.percentiles@.len() == other.percentiles@.len(),
                    percs_eq == (forall|j: int|
                        0 <= j < i ==> perc_eq_repr(
                            #[trigger] self.percentiles@[j],
                            other.percentiles@[j],
                        )),
                decreases self.percentiles@.len() - i,
            {
                percs_eq = percs_eq && (self.percentiles[i] == other.percentiles[i]);
                i = i + 1;
            }
        }
        names_eq && percs_eq && self.mean == other.mean && self.std_deviation
            == other.std_deviation && self.max == other.max && self.total_count
            == other.total_count && self.buckets == other.buckets && self.sub_buckets
            == other.sub_buckets
    }
}

impl vstd::std_specs::cmp::PartialEqSpecImpl for HGRM {
    open spec fn obeys_eq_spec() -> bool {
        true
    }

    open spec fn eq_spec(&self, other: &HGRM) -> bool {
        hgrm_eq_repr(*self, *other)
    }
}

/// The ordered collection of histograms parsed from one document.
#[derive(Debug)]
pub struct HGRMs(pub Vec<HGRM>);

impl View for HGRMs {
    type V = Seq<HgrmView>;

    open spec fn view(&self) -> Seq<HgrmView> {
        self.0@.map(|i: int, h: HGRM| h@)
    }
}

impl HGRMs {
    pub fn new(hgrms: Vec<HGRM>) -> (r: HGRMs)
        ensures
            r@ == hgrms@.map(|i: int, h: HGRM| h@),
            r.0 == hgrms,
    {
        HGRMs(hgrms)
    }

    pub fn len(&self) -> (r: usize)
        ensures
            r == self@.len(),
    {
        self.0.len()
    }

    /// Indexed access in document order.
    pub fn get(&self, idx: usize) -> (r: &HGRM)
        requires
            idx < self@.len(),
        ensures
            r@ == self@[idx as int],
            *r == self.0@[idx as int],
    {
        &self.0[idx]
    }

    /// True when every decimal held anywhere in the collection is well
    /// formed, so that latencies can be compared.
    pub open spec fn wf(self) -> bool {
        forall|i: int| 0 <= i < self.0@.len() ==> (#[trigger] self.0@[i]).wf()
    }

    /// Runtime check of `wf`, for callers outside verified code.
    pub fn is_wf(&self) -> (r: bool)
        ensures
            r == self.wf(),
    {
        let mut i: usize = 0;
        let mut ok = true;
        while i < self.0.len()
            invariant
                0 <= i <= self.0@.len(),
                ok == (forall|a: int| 0 <= a < i ==> (#[trigger] self.0@[a]).wf()),
            decreases self.0@.len() - i,
        {
            let h = &self.0[i];
            let mut hok = h.mean.is_wf() && h.std_deviation.is_wf() && h.max.is_wf();
            let mut j: usize = 0;
            while j < h.percentiles.len()
                invariant
                    0 <= j <= h.percentiles@.len(),
                    hok == (h.mean.wf() && h.std_deviation.wf() && h.max.wf() && forall|b: int|
                        0 <= b < j ==> (#[trigger] h.percentiles@[b]).wf()),
                decreases h.percentiles@.len() - j,
            {
                let p = &h.percentiles[j];
                let pok = p.value.is_wf() && p.percentile.is_wf() && (match &p.one_percentile {
                    OnePercentile::Inf => true,
                    OnePercentile::Value(d) => d.is_wf(),
                });
                hok = hok && pok;
                j = j + 1;
            }
            ok = ok && hok;
            i = i + 1;
        }
        ok
    }

    /// The largest latency value across every row of every histogram.
    pub fn max_latency(&self) -> (r: Decimal)
        requires
            self@.len() > 0,
            forall|i: int| 0 <= i < self@.len() ==> (#[trigger] self@[i]).percentiles.len() > 0,
            self.wf(),
        ensures
            r.wf(),
            exists|i: int, j: int|
                0 <= i < self@.len() && 0 <= j < self@[i].percentiles.len() && r@ == self@[
                    i
                ].percentiles[j].value,
            forall|i: int, j: int|
                #![trigger self@[i].percentiles[j]]
                0 <= i < self@.len() && 0 <= j < self@[i].percentiles.len() ==> dec_le(
                    self@[i].percentiles[j].value,
                    r@,
                ),
    {
        proof {
            assert(self@[0] == self.0@[0]@);
            assert(self.0@[0].wf());
        }
        let mut best = self.0[0].max_latency();
        proof {
            let j = choose|j: int|
                0 <= j < self.0@[0]@.percentiles.len() && best@ == self.0@[0]@.percentiles[j].value;
            assert(0 <= j < self@[0].percentiles.len() && best@ == self@[0].percentiles[j].value);
        }
        let mut i: usize = 1;
        while i < self.0.len()
            invariant
                1 <= i <= self.0@.len(),
                self@.len() == self.0@.len(),
                forall|a: int| 0 <= a < self@.len() ==> (#[trigger] self@[a]).percentiles.len() > 0,
                self.wf(),
                best.wf(),
                exists|a: int, b: int|
                    0 <= a < i && 0 <= b < self@[a].percentiles.len() && best@ == self@[
                        a
                    ].percentiles[b].value,
                forall|a: int, b: int|
                    #![trigger self@[a].percentiles[b]]
                    0 <= a < i && 0 <= b < self@[a].percentiles.len() ==> dec_le(
                        self@[a].percentiles[b].value,
                        best@,
                    ),
            decreases self.0@.len() - i,
        {
            proof {
                assert(self@[i as int] == self.0@[i as int]@);
                assert(self.0@[i as int].wf());
            }
            let m = self.0[i].max_latency();
            proof {
                let j = choose|j: int|
                    0 <= j < self.0@[i as int]@.percentiles.len() && m@ == self.0@[
                        i as int
                    ]@.percentiles[j].value;
                assert(0 <= j < self@[i as int].percentiles.len() && m@ == self@[
                    i as int
                ].percentiles[j].value);
            }
            if best.le(&m) {
                proof {
                    assert forall|a: int, b: int|
                        #![trigger self@[a].percentiles[b]]
                        0 <= a < i + 1 && 0 <= b < self@[a].percentiles.len() implies dec_le(
                        self@[a].percentiles[b].value,
                        m@,
                    ) by {
                        if a < i {
                            lemma_dec_le_trans(self@[a].percentiles[b].value, best@, m@);
                        }
                    }
                }
                best = m;
            } else {
                proof {
                    assert forall|a: int, b: int|
                        #![trigger self@[a].percentiles[b]]
                        0 <= a < i + 1 && 0 <= b < self@[a].percentiles.len() implies dec_le(
                        self@[a].percentiles[b].value,
                        best@,
                    ) by {
                        if a == i {
                            lemma_dec_le_trans(self@[a].percentiles[b].value, m@, best@);
                        }
                    }
                }
            }
            i = i + 1;
        }
        best
    }
}

impl PartialEq for HGRMs {
    /// Structural equality: same length, equal histograms in order.
    fn eq(&self, other: &HGRMs) -> (r: bool) {
        let mut r = self.0.len() == other.0.len();
        if r {
            let mut i: usize = 0;
            while i < self.0.len()
                invariant
                    0 <= i <= self.0@.len(),
                    self.0@.len() == other.0@.len(),
                    r == (forall|j: int|
                        0 <= j < i ==> hgrm_eq_repr(#[trigger] self.0@[j], other.0@[j])),
                decreases self.0@.len() - i,
            {
                r = r && (self.0[i] == other.0[i]);
                i = i + 1;
            }
        }
        r
    }
}

impl vstd::std_specs::cmp::PartialEqSpecImpl for HGRMs {
    open spec fn obeys_eq_spec() -> bool {
        true
    }

    open spec fn eq_spec(&self, other: &HGRMs) -> bool {
        self.0@.len() == other.0@.len() && forall|i: int|
            0 <= i < self.0@.len() ==> hgrm_eq_repr(#[trigger] self.0@[i], other.0@[i])
    }
}

} // verus!
