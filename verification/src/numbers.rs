//! Checking that every figure a piece of prose states is one the evidence holds.
//!
//! A citation proves where a claim says it came from; it does not prove the
//! claim is true to its source. So every number in a model's text has to
//! appear in the evidence it rests on, either as written or as an honest
//! rounding *down in precision* of a measured figure ("4.1" for a measured
//! "4.14", "512" for "511.8"). Precision the evidence never had ("4.144") or a
//! figure nobody measured is reported back as unverifiable.
//!
//! Figures are kept exactly as written: the digits, and how many of them came
//! after the decimal point. Comparing and rounding happen on those digits, so
//! no figure is ever approximated on its way to a verdict.

use vstd::prelude::*;

use crate::text::{chars_of, is_ascii_digit, is_ascii_letter, is_digit, is_white, is_whitespace};

verus! {

/// A number as it appeared in text: every digit as written (thousands
/// separators and the decimal point removed), and how many of those digits
/// followed the point.
#[derive(Debug, Clone, PartialEq)]
pub struct Figure {
    pub digits: Vec<u8>,
    pub decimals: usize,
}

impl View for Figure {
    type V = (Seq<u8>, nat);

    open spec fn view(&self) -> (Seq<u8>, nat) {
        (self.digits@, self.decimals as nat)
    }
}

/// Whether a character is alphabetic in the Unicode sense (std's
/// `char::is_alphabetic`).
pub uninterp spec fn alphabetic(c: char) -> bool;

/// std's `char::is_alphabetic`. Trusted: the result is the Unicode
/// `Alphabetic` property of `c`, named [`alphabetic`]; the contract adds only
/// that ASCII letters have it and ASCII digits do not.
#[verifier::external_body]
fn char_is_alphabetic(c: char) -> (b: bool)
    ensures
        b == alphabetic(c),
        is_ascii_letter(c) ==> b,
        is_digit(c) ==> !b,
{
    c.is_alphabetic()
}

/// The value of a decimal digit character.
pub open spec fn digit_value(c: char) -> u8 {
    ((c as u32) - ('0' as u32)) as u8
}

/// Whether the token read so far (since the last whitespace) has a separator
/// of the kind identifiers use.
pub open spec fn next_dot(c: char, dot: bool) -> bool {
    if is_white(c) {
        false
    } else {
        dot || c == '.' || c == '_'
    }
}

/// Whether the token read so far (since the last whitespace) has a letter.
pub open spec fn next_alpha(c: char, alpha: bool) -> bool {
    if is_white(c) {
        false
    } else {
        alpha || alphabetic(c)
    }
}

/// Scanner modes: between figures, skipping an identifier token, or inside a
/// figure.
pub open spec fn free_mode() -> int {
    0
}

pub open spec fn skip_mode() -> int {
    1
}

pub open spec fn number_mode() -> int {
    2
}

/// The figures in `b[i..]`, given the scanner state at `i`.
///
/// The rules, as a reader would state them:
///   - a figure starts at an ASCII digit, and runs over further digits, a `,`
///     that is followed by a digit (a thousands separator, dropped), and at
///     most one `.` that is followed by a digit (the decimal point);
///   - a digit inside a token that, before the digit, already holds a `.` or
///     `_` and a letter is part of an identifier such as `hero.35`, and the
///     rest of that token is skipped;
///   - a token is a run of characters between whitespace.
///
/// `dot` and `alpha` describe the current token up to `i`; `acc`, `dec` and
/// `seen` are the figure being read in number mode.
pub open spec fn scan(
    b: Seq<char>,
    i: int,
    dot: bool,
    alpha: bool,
    mode: int,
    acc: Seq<u8>,
    dec: nat,
    seen: bool,
) -> Seq<(Seq<u8>, nat)>
    decreases b.len() - i, if mode == number_mode() {
        1int
    } else {
        0int
    },
{
    if i < 0 || i >= b.len() {
        if mode == number_mode() {
            seq![(acc, dec)]
        } else {
            seq![]
        }
    } else {
        let c = b[i];
        let nd = next_dot(c, dot);
        let na = next_alpha(c, alpha);
        if mode == number_mode() {
            if is_digit(c) {
                scan(
                    b,
                    i + 1,
                    nd,
                    na,
                    number_mode(),
                    acc.push(digit_value(c)),
                    if seen {
                        dec + 1
                    } else {
                        dec
                    },
                    seen,
                )
            } else if c == ',' && i + 1 < b.len() && is_digit(b[i + 1]) {
                scan(b, i + 1, nd, na, number_mode(), acc, dec, seen)
            } else if c == '.' && !seen && i + 1 < b.len() && is_digit(b[i + 1]) {
                scan(b, i + 1, nd, na, number_mode(), acc, dec, true)
            } else {
                seq![(acc, dec)] + scan(b, i, dot, alpha, free_mode(), seq![], 0, false)
            }
        } else if mode == skip_mode() {
            if is_white(c) {
                scan(b, i + 1, false, false, free_mode(), seq![], 0, false)
            } else {
                scan(b, i + 1, nd, na, skip_mode(), seq![], 0, false)
            }
        } else {
            if !is_digit(c) {
                scan(b, i + 1, nd, na, free_mode(), seq![], 0, false)
            } else if dot && alpha {
                scan(b, i + 1, nd, na, skip_mode(), seq![], 0, false)
            } else {
                scan(b, i + 1, nd, na, number_mode(), seq![digit_value(c)], 0, false)
            }
        }
    }
}

/// Every figure in a text, in order.
pub open spec fn spec_figures(text: Seq<char>) -> Seq<(Seq<u8>, nat)> {
    scan(text, 0, false, false, free_mode(), seq![], 0, false)
}

/// The figures of a list of texts, in order.
pub open spec fn all_figures(sources: Seq<Seq<char>>) -> Seq<(Seq<u8>, nat)>
    decreases sources.len(),
{
    if sources.len() == 0 {
        seq![]
    } else {
        all_figures(sources.drop_last()) + spec_figures(sources.last())
    }
}

/// A well-formed figure: at least one digit, every digit below ten, and no
/// more decimals than digits.
pub open spec fn figure_wf(f: (Seq<u8>, nat)) -> bool {
    &&& f.0.len() >= 1
    &&& f.1 <= f.0.len()
    &&& forall|k: int| 0 <= k < f.0.len() ==> f.0[k] < 10
}

/// Leading zeros removed.
pub open spec fn strip_zeros(d: Seq<u8>) -> Seq<u8>
    decreases d.len(),
{
    if d.len() > 0 && d[0] == 0 {
        strip_zeros(d.drop_first())
    } else {
        d
    }
}

/// `n` zero digits.
pub open spec fn zeros(n: nat) -> Seq<u8> {
    Seq::new(n, |k: int| 0u8)
}

/// Two figures denote the same number: written at a common number of
/// decimals, their digits agree once leading zeros are ignored.
pub open spec fn same_value(a: (Seq<u8>, nat), b: (Seq<u8>, nat)) -> bool {
    let t = if a.1 >= b.1 {
        a.1
    } else {
        b.1
    };
    strip_zeros(a.0 + zeros((t - a.1) as nat)) == strip_zeros(b.0 + zeros((t - b.1) as nat))
}

/// A digit string plus one in its last place.
pub open spec fn increment(d: Seq<u8>) -> Seq<u8>
    decreases d.len(),
{
    if d.len() == 0 {
        seq![1u8]
    } else if d.last() == 9 {
        increment(d.drop_last()).push(0u8)
    } else {
        d.drop_last().push((d.last() + 1) as u8)
    }
}

/// A digit string with its last `drop` digits rounded off, half up.
pub open spec fn round_off(d: Seq<u8>, drop: nat) -> Seq<u8> {
    let keep = d.take(d.len() - drop);
    if d[d.len() - drop] >= 5 {
        increment(keep)
    } else {
        keep
    }
}

/// Whether a stated figure is a faithful restatement of a measured one: the
/// same number, or the measured number rounded (half up) to the stated
/// figure's precision, which must be coarser.
pub open spec fn spec_matches(stated: (Seq<u8>, nat), measured: (Seq<u8>, nat)) -> bool {
    ||| same_value(stated, measured)
    ||| (stated.1 < measured.1 && strip_zeros(round_off(measured.0, (measured.1 - stated.1) as nat))
        == strip_zeros(stated.0))
}

/// Whether some measured figure backs a stated one.
pub open spec fn backed(stated: (Seq<u8>, nat), measured: Seq<(Seq<u8>, nat)>) -> bool {
    exists|k: int| 0 <= k < measured.len() && spec_matches(stated, measured[k])
}

/// The stated figures that no measured figure backs, in order.
pub open spec fn unmatched(stated: Seq<(Seq<u8>, nat)>, measured: Seq<(Seq<u8>, nat)>) -> Seq<
    (Seq<u8>, nat),
>
    decreases stated.len(),
{
    if stated.len() == 0 {
        seq![]
    } else {
        unmatched(stated.drop_last(), measured) + if backed(stated.last(), measured) {
            seq![]
        } else {
            seq![stated.last()]
        }
    }
}

/// Every figure in `text` that does not appear in `sources`.
pub open spec fn spec_unverifiable(text: Seq<char>, sources: Seq<Seq<char>>) -> Seq<
    (Seq<u8>, nat),
> {
    unmatched(spec_figures(text), all_figures(sources))
}

/// The views of a list of figures.
pub open spec fn views(v: Seq<Figure>) -> Seq<(Seq<u8>, nat)> {
    v.map_values(|f: Figure| f@)
}

/// The texts of a list of string slices.
pub open spec fn texts(v: Seq<&str>) -> Seq<Seq<char>> {
    v.map_values(|s: &str| s@)
}

fn value_of(c: char) -> (d: u8)
    requires
        is_digit(c),
    ensures
        d == digit_value(c),
        d < 10,
{
    ((c as u32) - ('0' as u32)) as u8
}

/// Pull every figure out of a piece of text.
pub fn figures(text: &str) -> (out: Vec<Figure>)
    ensures
        views(out@) == spec_figures(text@),
        forall|k: int| 0 <= k < out@.len() ==> figure_wf(#[trigger] out@[k]@),
{
    let b = chars_of(text);
    let n = b.len();
    let mut out: Vec<Figure> = Vec::new();
    let mut i: usize = 0;
    let mut dot = false;
    let mut alpha = false;
    let mut mode: u8 = 0;
    let mut acc: Vec<u8> = Vec::new();
    let mut dec: usize = 0;
    let mut seen = false;

    while i < n
        invariant
            n == b@.len(),
            b@ == text@,
            i <= n,
            mode <= 2,
            views(out@) + scan(b@, i as int, dot, alpha, mode as int, acc@, dec as nat, seen)
                == spec_figures(text@),
            forall|k: int| 0 <= k < out@.len() ==> figure_wf(#[trigger] out@[k]@),
            mode == 2 ==> figure_wf((acc@, dec as nat)),
            mode == 2 ==> acc@.len() <= i,
            mode != 2 ==> acc@.len() == 0 && dec == 0 && !seen,
            dec <= acc@.len(),
        decreases n - i, if mode == 2 {
            1int
        } else {
            0int
        },
    {
        let c = b[i];
        let white = is_whitespace(c);
        let nd = if white {
            false
        } else {
            dot || c == '.' || c == '_'
        };
        let na = if white {
            false
        } else {
            alpha || char_is_alphabetic(c)
        };
        let ghost before = scan(b@, i as int, dot, alpha, mode as int, acc@, dec as nat, seen);
        proof {
            if mode != 2 {
                assert(acc@ =~= Seq::<u8>::empty());
            }
        }
        if mode == 2 {
            if is_ascii_digit(c) {
                let v = value_of(c);
                acc.push(v);
                if seen {
                    dec = dec + 1;
                }
                i = i + 1;
                dot = nd;
                alpha = na;
                proof {
                    assert(before == scan(b@, i as int, dot, alpha, mode as int, acc@, dec as nat, seen));
                }
            } else if c == ',' && i + 1 < n && is_ascii_digit(b[i + 1]) {
                i = i + 1;
                dot = nd;
                alpha = na;
            } else if c == '.' && !seen && i + 1 < n && is_ascii_digit(b[i + 1]) {
                seen = true;
                i = i + 1;
                dot = nd;
                alpha = na;
            } else {
                let digits = acc;
                let fig = Figure { digits, decimals: dec };
                let ghost fv = fig@;
                let ghost prior = out@;
                out.push(fig);
                proof {
                    assert(views(out@) =~= views(prior) + seq![fv]);
                    let rest = scan(b@, i as int, dot, alpha, 0, seq![], 0, false);
                    assert(before == seq![fv] + rest);
                    assert(views(prior) + before =~= (views(prior) + seq![fv]) + rest);
                }
                acc = Vec::new();
                dec = 0;
                seen = false;
                mode = 0;
            }
        } else if mode == 1 {
            if white {
                dot = false;
                alpha = false;
                mode = 0;
            } else {
                dot = nd;
                alpha = na;
            }
            i = i + 1;
        } else {
            if !is_ascii_digit(c) {
                dot = nd;
                alpha = na;
            } else if dot && alpha {
                dot = nd;
                alpha = na;
                mode = 1;
            } else {
                let v = value_of(c);
                acc.push(v);
                dot = nd;
                alpha = na;
                mode = 2;
                proof {
                    assert(acc@ =~= seq![v]);
                }
            }
            i = i + 1;
            proof {
                assert(before == scan(b@, i as int, dot, alpha, mode as int, acc@, dec as nat, seen));
            }
        }
    }
    if mode == 2 {
        let digits = acc;
        let fig = Figure { digits, decimals: dec };
        out.push(fig);
        proof {
            assert(views(out@) =~= views(out@.drop_last()).push(fig@));
        }
    }
    out
}

/// `d` with its leading zeros removed.
fn strip_leading_zeros(d: &Vec<u8>) -> (out: Vec<u8>)
    ensures
        out@ == strip_zeros(d@),
{
    let mut i: usize = 0;
    assert(d@.skip(0) =~= d@);
    while i < d.len() && d[i] == 0
        invariant
            i <= d.len(),
            strip_zeros(d@) == strip_zeros(d@.skip(i as int)),
        decreases d.len() - i,
    {
        assert(d@.skip(i as int)[0] == d@[i as int]);
        proof {
            assert(d@.skip(i as int).drop_first() =~= d@.skip(i + 1));
        }
        i = i + 1;
    }
    let mut out: Vec<u8> = Vec::new();
    let mut k: usize = i;
    while k < d.len()
        invariant
            i <= k <= d.len(),
            out@ == d@.subrange(i as int, k as int),
        decreases d.len() - k,
    {
        out.push(d[k]);
        proof {
            assert(d@.subrange(i as int, k + 1) == d@.subrange(i as int, k as int).push(
                d@[k as int],
            ));
        }
        k = k + 1;
    }
    proof {
        assert(out@ =~= d@.skip(i as int));
    }
    out
}

/// `d` followed by `n` zeros.
fn pad_zeros(d: &Vec<u8>, n: usize) -> (out: Vec<u8>)
    ensures
        out@ == d@ + zeros(n as nat),
{
    let mut out: Vec<u8> = Vec::new();
    let mut k: usize = 0;
    while k < d.len()
        invariant
            k <= d.len(),
            out@ == d@.take(k as int),
        decreases d.len() - k,
    {
        out.push(d[k]);
        proof {
            assert(d@.take(k + 1) == d@.take(k as int).push(d@[k as int]));
        }
        k = k + 1;
    }
    let mut z: usize = 0;
    while z < n
        invariant
            z <= n,
            out@ == d@ + zeros(z as nat),
        decreases n - z,
    {
        out.push(0u8);
        proof {
            assert(zeros((z + 1) as nat) =~= zeros(z as nat).push(0u8));
            assert(d@ + zeros((z + 1) as nat) =~= (d@ + zeros(z as nat)).push(0u8));
        }
        z = z + 1;
    }
    proof {
        assert(d@.take(d@.len() as int) =~= d@);
        assert(d@ + zeros(0) =~= d@);
    }
    out
}

fn same_digits(x: &Vec<u8>, y: &Vec<u8>) -> (r: bool)
    ensures
        r == (x@ == y@),
{
    if x.len() != y.len() {
        return false;
    }
    let mut i: usize = 0;
    while i < x.len()
        invariant
            x.len() == y.len(),
            i <= x.len(),
            forall|k: int| 0 <= k < i ==> x@[k] == y@[k],
        decreases x.len() - i,
    {
        if x[i] != y[i] {
            return false;
        }
        i = i + 1;
    }
    proof {
        assert(x@ =~= y@);
    }
    true
}

/// Whether two figures denote the same number.
fn same_number(a: &Figure, b: &Figure) -> (r: bool)
    ensures
        r == same_value(a@, b@),
{
    let t = if a.decimals >= b.decimals {
        a.decimals
    } else {
        b.decimals
    };
    let x = strip_leading_zeros(&pad_zeros(&a.digits, t - a.decimals));
    let y = strip_leading_zeros(&pad_zeros(&b.digits, t - b.decimals));
    same_digits(&x, &y)
}

/// `increment(d.take(n))`.
fn increment_prefix(d: &Vec<u8>, n: usize) -> (out: Vec<u8>)
    requires
        n <= d.len(),
        forall|k: int| 0 <= k < d@.len() ==> d@[k] < 10,
    ensures
        out@ == increment(d@.take(n as int)),
    decreases n,
{
    if n == 0 {
        let mut out: Vec<u8> = Vec::new();
        out.push(1u8);
        proof {
            assert(d@.take(0) =~= Seq::<u8>::empty());
            assert(out@ =~= seq![1u8]);
        }
        out
    } else if d[n - 1] == 9 {
        let mut out = increment_prefix(d, n - 1);
        out.push(0u8);
        proof {
            assert(d@.take(n as int).drop_last() =~= d@.take(n - 1));
        }
        out
    } else {
        let mut out: Vec<u8> = Vec::new();
        let mut k: usize = 0;
        while k < n - 1
            invariant
                n <= d.len(),
                n >= 1,
                k <= n - 1,
                out@ == d@.take(k as int),
            decreases n - 1 - k,
        {
            out.push(d[k]);
            proof {
                assert(d@.take(k + 1) == d@.take(k as int).push(d@[k as int]));
            }
            k = k + 1;
        }
        out.push(d[n - 1] + 1);
        proof {
            assert(d@.take(n as int).drop_last() =~= d@.take(n - 1));
        }
        out
    }
}

/// Whether a stated figure restates a measured one.
pub fn matches(stated: &Figure, measured: &Figure) -> (r: bool)
    requires
        figure_wf(measured@),
    ensures
        r == spec_matches(stated@, measured@),
{
    if same_number(stated, measured) {
        return true;
    }
    if stated.decimals >= measured.decimals {
        return false;
    }
    let drop = measured.decimals - stated.decimals;
    let len = measured.digits.len();
    let keep = len - drop;
    let rounded = if measured.digits[keep] >= 5 {
        increment_prefix(&measured.digits, keep)
    } else {
        let mut out: Vec<u8> = Vec::new();
        let mut k: usize = 0;
        while k < keep
            invariant
                keep <= measured.digits.len(),
                k <= keep,
                out@ == measured.digits@.take(k as int),
            decreases keep - k,
        {
            out.push(measured.digits[k]);
            proof {
                assert(measured.digits@.take(k + 1) == measured.digits@.take(k as int).push(
                    measured.digits@[k as int],
                ));
            }
            k = k + 1;
        }
        out
    };
    let x = strip_leading_zeros(&rounded);
    let y = strip_leading_zeros(&stated.digits);
    same_digits(&x, &y)
}

/// The figures of every source, in order.
fn figures_of_all(sources: &[&str]) -> (out: Vec<Figure>)
    ensures
        views(out@) == all_figures(texts(sources@)),
        forall|k: int| 0 <= k < out@.len() ==> figure_wf(#[trigger] out@[k]@),
{
    let mut out: Vec<Figure> = Vec::new();
    let mut j: usize = 0;
    while j < sources.len()
        invariant
            j <= sources@.len(),
            views(out@) == all_figures(texts(sources@).take(j as int)),
            forall|k: int| 0 <= k < out@.len() ==> figure_wf(#[trigger] out@[k]@),
        decreases sources@.len() - j,
    {
        let found = figures(sources[j]);
        let ghost before = out@;
        let mut found = found;
        let ghost found_v = views(found@);
        let ghost found_s = found@;
        out.append(&mut found);
        proof {
            let t = texts(sources@);
            assert(t.take(j + 1).drop_last() =~= t.take(j as int));
            assert(t.take(j + 1).last() == sources@[j as int]@);
            assert(views(out@) =~= views(before) + found_v);
            assert forall|k: int| 0 <= k < out@.len() implies figure_wf(#[trigger] out@[k]@) by {
                if k >= before.len() {
                    assert(out@[k] == found_s[k - before.len()]);
                }
            }
        }
        j = j + 1;
    }
    proof {
        assert(texts(sources@).take(sources@.len() as int) =~= texts(sources@));
    }
    out
}

/// Every figure in `text` that does not appear in `sources`.
///
/// `sources` is the evidence the claim rests on — the cited statements for an
/// insight, or the whole evidence set for a summary.
pub fn unverifiable(text: &str, sources: &[&str]) -> (out: Vec<Figure>)
    ensures
        views(out@) == spec_unverifiable(text@, texts(sources@)),
        forall|k: int| 0 <= k < out@.len() ==> figure_wf(#[trigger] out@[k]@),
{
    let measured = figures_of_all(sources);
    let stated = figures(text);
    let ghost mv = views(measured@);
    let ghost sv = views(stated@);
    let mut out: Vec<Figure> = Vec::new();
    let mut i: usize = 0;
    while i < stated.len()
        invariant
            i <= stated@.len(),
            sv == views(stated@),
            mv == views(measured@),
            forall|k: int| 0 <= k < measured@.len() ==> figure_wf(#[trigger] measured@[k]@),
            forall|k: int| 0 <= k < stated@.len() ==> figure_wf(#[trigger] stated@[k]@),
            forall|k: int| 0 <= k < out@.len() ==> figure_wf(#[trigger] out@[k]@),
            views(out@) == unmatched(sv.take(i as int), mv),
        decreases stated@.len() - i,
    {
        let mut hit = false;
        let mut k: usize = 0;
        while k < measured.len()
            invariant
                k <= measured@.len(),
                i < stated@.len(),
                mv == views(measured@),
                forall|q: int| 0 <= q < measured@.len() ==> figure_wf(#[trigger] measured@[q]@),
                hit == (exists|q: int| 0 <= q < k && spec_matches(stated@[i as int]@, mv[q])),
            decreases measured@.len() - k,
        {
            if matches(&stated[i], &measured[k]) {
                hit = true;
            }
            proof {
                assert(mv[k as int] == measured@[k as int]@);
            }
            k = k + 1;
        }
        proof {
            assert(sv.take(i + 1).drop_last() =~= sv.take(i as int));
            assert(sv.take(i + 1).last() == stated@[i as int]@);
            assert(hit == backed(stated@[i as int]@, mv));
        }
        if !hit {
            let copy = Figure { digits: stated[i].digits.clone(), decimals: stated[i].decimals };
            proof {
                assert(copy@ == stated@[i as int]@);
            }
            let ghost before = out@;
            out.push(copy);
            proof {
                assert(views(out@) =~= views(before) + seq![copy@]);
            }
        } else {
            proof {
                assert(unmatched(sv.take(i + 1), mv) =~= unmatched(sv.take(i as int), mv) + seq![]);
            }
        }
        i = i + 1;
    }
    proof {
        assert(sv.take(stated@.len() as int) =~= sv);
    }
    out
}

/// How many figures a text states at all.
pub fn count_figures(text: &str) -> (n: usize)
    ensures
        n == spec_figures(text@).len(),
{
    let f = figures(text);
    f.len()
}

} // verus!

verus! {

/// Digits as characters.
pub open spec fn digit_chars(d: Seq<u8>) -> Seq<char> {
    d.map_values(|x: u8| crate::text::digit_char(x as nat))
}

/// Trailing zeros removed.
pub open spec fn strip_trailing_zeros(d: Seq<u8>) -> Seq<u8>
    decreases d.len(),
{
    if d.len() > 0 && d.last() == 0 {
        strip_trailing_zeros(d.drop_last())
    } else {
        d
    }
}

/// A figure written the way a number prints: no leading zeros before the
/// point (but at least one digit), no trailing zeros after it, and no point
/// at all for a whole number. `"24,500"` reads back as `24500`, `"4.10"` as
/// `4.1`.
pub open spec fn figure_text(f: (Seq<u8>, nat)) -> Seq<char> {
    let whole = strip_zeros(f.0.take(f.0.len() - f.1));
    let whole = if whole.len() == 0 {
        seq![0u8]
    } else {
        whole
    };
    let fraction = strip_trailing_zeros(f.0.skip(f.0.len() - f.1));
    if fraction.len() == 0 {
        digit_chars(whole)
    } else {
        digit_chars(whole) + seq!['.'] + digit_chars(fraction)
    }
}

fn digit_text(d: u8) -> (c: char)
    requires
        d < 10,
    ensures
        c == crate::text::digit_char(d as nat),
{
    if d == 0 {
        '0'
    } else if d == 1 {
        '1'
    } else if d == 2 {
        '2'
    } else if d == 3 {
        '3'
    } else if d == 4 {
        '4'
    } else if d == 5 {
        '5'
    } else if d == 6 {
        '6'
    } else if d == 7 {
        '7'
    } else if d == 8 {
        '8'
    } else {
        '9'
    }
}

fn push_digits(s: &mut String, d: &Vec<u8>)
    requires
        forall|k: int| 0 <= k < d@.len() ==> d@[k] < 10,
    ensures
        final(s)@ == old(s)@ + digit_chars(d@),
{
    let ghost start = s@;
    let mut i: usize = 0;
    while i < d.len()
        invariant
            i <= d.len(),
            forall|k: int| 0 <= k < d@.len() ==> d@[k] < 10,
            s@ == start + digit_chars(d@.take(i as int)),
        decreases d.len() - i,
    {
        crate::text::push_char(s, digit_text(d[i]));
        proof {
            assert(digit_chars(d@.take(i + 1)) =~= digit_chars(d@.take(i as int)).push(
                crate::text::digit_char(d@[i as int] as nat),
            ));
        }
        i = i + 1;
    }
    proof {
        assert(d@.take(d@.len() as int) =~= d@);
    }
}

fn strip_trailing(d: &Vec<u8>) -> (out: Vec<u8>)
    ensures
        out@ == strip_trailing_zeros(d@),
        out@.len() <= d@.len(),
        forall|k: int| 0 <= k < out@.len() ==> out@[k] == d@[k],
{
    let mut j: usize = d.len();
    proof {
        assert(d@.take(d@.len() as int) =~= d@);
    }
    while j > 0 && d[j - 1] == 0
        invariant
            j <= d.len(),
            strip_trailing_zeros(d@) == strip_trailing_zeros(d@.take(j as int)),
        decreases j,
    {
        proof {
            assert(d@.take(j as int).drop_last() =~= d@.take(j - 1));
        }
        j = j - 1;
    }
    let mut out: Vec<u8> = Vec::new();
    let mut k: usize = 0;
    while k < j
        invariant
            j <= d.len(),
            k <= j,
            out@ == d@.take(k as int),
        decreases j - k,
    {
        out.push(d[k]);
        proof {
            assert(d@.take(k + 1) == d@.take(k as int).push(d@[k as int]));
        }
        k = k + 1;
    }
    proof {
        if j > 0 {
            assert(d@.take(j as int).last() == d@[j - 1]);
        }
    }
    out
}

proof fn lemma_strip_zeros_digits(d: Seq<u8>)
    requires
        forall|k: int| 0 <= k < d.len() ==> d[k] < 10,
    ensures
        forall|k: int| 0 <= k < strip_zeros(d).len() ==> strip_zeros(d)[k] < 10,
    decreases d.len(),
{
    if d.len() > 0 && d[0] == 0 {
        assert forall|k: int| 0 <= k < d.drop_first().len() implies d.drop_first()[k] < 10 by {
            assert(d.drop_first()[k] == d[k + 1]);
        }
        lemma_strip_zeros_digits(d.drop_first());
        assert(strip_zeros(d) == strip_zeros(d.drop_first()));
    } else {
        assert(strip_zeros(d) == d);
    }
}

/// A figure written the way a number prints.
pub fn figure_string(f: &Figure) -> (s: String)
    requires
        figure_wf(f@),
    ensures
        s@ == figure_text(f@),
{
    let len = f.digits.len();
    let split = len - f.decimals;
    let mut whole_part: Vec<u8> = Vec::new();
    let mut k: usize = 0;
    while k < split
        invariant
            split <= len == f.digits.len(),
            k <= split,
            whole_part@ == f.digits@.take(k as int),
        decreases split - k,
    {
        whole_part.push(f.digits[k]);
        proof {
            assert(f.digits@.take(k + 1) == f.digits@.take(k as int).push(f.digits@[k as int]));
        }
        k = k + 1;
    }
    let mut fraction_part: Vec<u8> = Vec::new();
    let mut q: usize = split;
    while q < len
        invariant
            split <= q <= len == f.digits.len(),
            fraction_part@ == f.digits@.subrange(split as int, q as int),
        decreases len - q,
    {
        fraction_part.push(f.digits[q]);
        proof {
            assert(f.digits@.subrange(split as int, q + 1) == f.digits@.subrange(
                split as int,
                q as int,
            ).push(f.digits@[q as int]));
        }
        q = q + 1;
    }
    proof {
        assert(fraction_part@ =~= f.digits@.skip(split as int));
        lemma_strip_zeros_digits(whole_part@);
    }
    let mut whole = strip_leading_zeros(&whole_part);
    if whole.len() == 0 {
        whole.push(0u8);
        proof {
            assert(whole@ =~= seq![0u8]);
        }
    }
    let fraction = strip_trailing(&fraction_part);
    let mut s = String::new();
    push_digits(&mut s, &whole);
    if fraction.len() > 0 {
        crate::text::push_char(&mut s, '.');
        push_digits(&mut s, &fraction);
        proof {
            assert(s@ =~= digit_chars(whole@) + seq!['.'] + digit_chars(fraction@));
        }
    } else {
        proof {
            assert(s@ =~= digit_chars(whole@));
        }
    }
    s
}

/// Every figure of one source appears among the figures of all of them.
proof fn lemma_source_figure_listed(sources: Seq<Seq<char>>, i: int, k: int)
    requires
        0 <= i < sources.len(),
        0 <= k < spec_figures(sources[i]).len(),
    ensures
        exists|j: int|
            0 <= j < all_figures(sources).len() && #[trigger] all_figures(sources)[j]
                == spec_figures(sources[i])[k],
    decreases sources.len(),
{
    let before = all_figures(sources.drop_last());
    let last = spec_figures(sources.last());
    assert(all_figures(sources) == before + last);
    if i == sources.len() - 1 {
        let j = before.len() + k;
        assert(all_figures(sources)[j] == spec_figures(sources[i])[k]);
    } else {
        assert(sources.drop_last()[i] == sources[i]);
        lemma_source_figure_listed(sources.drop_last(), i, k);
        let j = choose|j: int|
            0 <= j < before.len() && #[trigger] before[j] == spec_figures(sources.drop_last()[i])[k];
        assert(all_figures(sources)[j] == before[j]);
    }
}

/// When every stated figure is backed, none is left unmatched.
proof fn lemma_all_backed(stated: Seq<(Seq<u8>, nat)>, measured: Seq<(Seq<u8>, nat)>)
    requires
        forall|k: int| 0 <= k < stated.len() ==> backed(#[trigger] stated[k], measured),
    ensures
        unmatched(stated, measured).len() == 0,
    decreases stated.len(),
{
    if stated.len() > 0 {
        assert forall|k: int| 0 <= k < stated.drop_last().len() implies backed(
            #[trigger] stated.drop_last()[k],
            measured,
        ) by {
            assert(stated.drop_last()[k] == stated[k]);
        }
        lemma_all_backed(stated.drop_last(), measured);
        assert(backed(stated[stated.len() - 1], measured));
    }
}

/// Prose that only repeats the evidence is never refused: every figure of a
/// text is backed by a set of sources that includes that text.
pub proof fn quoting_the_evidence_is_never_refused(text: Seq<char>, sources: Seq<Seq<char>>)
    requires
        sources.contains(text),
    ensures
        spec_unverifiable(text, sources).len() == 0,
{
    let i = choose|i: int| 0 <= i < sources.len() && sources[i] == text;
    let stated = spec_figures(text);
    let measured = all_figures(sources);
    assert forall|k: int| 0 <= k < stated.len() implies backed(#[trigger] stated[k], measured) by {
        lemma_source_figure_listed(sources, i, k);
        let j = choose|j: int|
            0 <= j < measured.len() && #[trigger] measured[j] == spec_figures(sources[i])[k];
        assert(same_value(stated[k], measured[j]));
        assert(spec_matches(stated[k], measured[j]));
    }
    lemma_all_backed(stated, measured);
}

} // verus!
