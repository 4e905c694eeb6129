//! Minimal 3D LUT (`.cube`) support: a text parser for the lattice format and
//! nearest-neighbor application to an image. The grammar: blank lines and
//! `#` comments are skipped; a line whose first eleven characters fold to
//! `LUT_3D_SIZE` sets the lattice size from its second token; any other line
//! of exactly three numeric tokens is a lattice value in [0,1], converted to
//! an 8-bit channel by clamping and scaling by 255. A numeric token follows
//! the float grammar: an optional sign, digits with an optional fraction, an
//! optional decimal exponent, or the words `inf`, `infinity`, `nan` in any
//! case; the value is read exactly, to nine significant fraction digits
//! after the (shifted) point. Every other line is ignored. A missing size is
//! inferred as the integer cube root of the value count.
use vstd::prelude::*;
use crate::imagebuf::{ImageBuf, px_at, px_ch, lemma_px_to_bytes, lemma_wf_len_facts};
use crate::strutil::{spec_decimal, u64_to_string};
use vstd::string::StringExecFns;

verus! {

/// Errors of LUT loading.
#[derive(Debug)]
pub enum LutError {
    /// Reading the file failed before parsing began.
    Io(String),
    /// The text does not describe a usable lattice.
    Parse(String),
}

/// Whitespace within a line: space, tab, vertical tab, form feed, carriage
/// return. Lines themselves are separated by line feeds.
pub open spec fn is_space(b: u8) -> bool {
    b == 32 || b == 9 || b == 11 || b == 12 || b == 13
}

/// An ASCII decimal digit.
pub open spec fn is_digit(b: u8) -> bool {
    48 <= b <= 57
}

/// ASCII upper-casing of one byte.
pub open spec fn to_upper(b: u8) -> u8 {
    if 97 <= b <= 122 {
        (b - 32) as u8
    } else {
        b
    }
}

/// Split a byte string into lines at line feeds, keeping empty lines; the
/// result always holds at least one (possibly empty) line.
pub open spec fn spec_lines(s: Seq<u8>) -> Seq<Seq<u8>>
    decreases s.len(),
{
    if s.len() == 0 {
        seq![Seq::<u8>::empty()]
    } else if s.last() == 10 {
        spec_lines(s.drop_last()).push(Seq::<u8>::empty())
    } else {
        let p = spec_lines(s.drop_last());
        p.update(p.len() - 1, p.last().push(s.last()))
    }
}

/// Lines are never an empty list.
pub proof fn lemma_lines_nonempty(s: Seq<u8>)
    ensures
        spec_lines(s).len() >= 1,
    decreases s.len(),
{
    if s.len() > 0 {
        lemma_lines_nonempty(s.drop_last());
    }
}

/// Leading whitespace removed.
pub open spec fn spec_trim_start(s: Seq<u8>) -> Seq<u8>
    decreases s.len(),
{
    if s.len() > 0 && is_space(s[0]) {
        spec_trim_start(s.skip(1))
    } else {
        s
    }
}

/// Trailing whitespace removed.
pub open spec fn spec_trim_end(s: Seq<u8>) -> Seq<u8>
    decreases s.len(),
{
    if s.len() > 0 && is_space(s.last()) {
        spec_trim_end(s.drop_last())
    } else {
        s
    }
}

/// Whitespace removed from both ends.
pub open spec fn spec_trim(s: Seq<u8>) -> Seq<u8> {
    spec_trim_end(spec_trim_start(s))
}

/// Skipping a whitespace prefix realizes `spec_trim_start`.
proof fn lemma_trim_start_skip(s: Seq<u8>, a: int)
    requires
        0 <= a <= s.len(),
        forall|j: int| 0 <= j < a ==> is_space(s[j]),
        a == s.len() || !is_space(s[a]),
    ensures
        spec_trim_start(s) =~= s.skip(a),
    decreases a,
{
    if a > 0 {
        assert(is_space(s[0]));
        lemma_trim_start_skip(s.skip(1), a - 1);
        assert(s.skip(1).skip(a - 1) =~= s.skip(a));
    } else {
        if s.len() > 0 {
            assert(!is_space(s[0]));
        }
    }
}

/// Taking up to the last non-space realizes `spec_trim_end`.
proof fn lemma_trim_end_take(s: Seq<u8>, b: int)
    requires
        0 <= b <= s.len(),
        forall|j: int| b <= j < s.len() ==> is_space(s[j]),
        b == 0 || !is_space(s[b - 1]),
    ensures
        spec_trim_end(s) =~= s.take(b),
    decreases s.len(),
{
    if b < s.len() {
        assert(is_space(s.last()));
        lemma_trim_end_take(s.drop_last(), b);
        assert(s.drop_last().take(b) =~= s.take(b));
    } else {
        if s.len() > 0 {
            assert(!is_space(s.last()));
        }
    }
}

/// Split a byte string into whitespace-separated tokens.
pub open spec fn spec_tokens(s: Seq<u8>) -> Seq<Seq<u8>>
    decreases s.len(),
{
    if s.len() == 0 {
        Seq::<Seq<u8>>::empty()
    } else {
        let p = spec_tokens(s.drop_last());
        let c = s.last();
        if is_space(c) {
            p
        } else if s.len() >= 2 && !is_space(s[s.len() - 2]) && p.len() > 0 {
            p.update(p.len() - 1, p.last().push(c))
        } else {
            p.push(seq![c])
        }
    }
}

/// The value of a string of decimal digits.
pub open spec fn digits_val(s: Seq<u8>) -> int
    decreases s.len(),
{
    if s.len() == 0 {
        0
    } else {
        digits_val(s.drop_last()) * 10 + (s.last() - 48)
    }
}

/// Every byte is a decimal digit.
pub open spec fn all_digits(s: Seq<u8>) -> bool {
    forall|i: int| 0 <= i < s.len() ==> is_digit(s[i])
}

/// Count of leading decimal digits.
pub open spec fn digits_prefix_len(s: Seq<u8>) -> int
    decreases s.len(),
{
    if s.len() > 0 && is_digit(s[0]) {
        1 + digits_prefix_len(s.skip(1))
    } else {
        0
    }
}

/// A nonnegative integer token (optional leading `+`), as `usize::parse`
/// reads it: `None` on malformed text or overflow.
pub open spec fn spec_parse_usize(t: Seq<u8>) -> Option<int> {
    let d = if t.len() > 0 && t[0] == 43 {
        t.skip(1)
    } else {
        t
    };
    if d.len() == 0 || !all_digits(d) {
        None
    } else if digits_val(d) > usize::MAX {
        None
    } else {
        Some(digits_val(d))
    }
}

/// One digit of a digit string, zero outside it.
pub open spec fn digit_at(dd: Seq<u8>, i: int) -> int {
    if 0 <= i < dd.len() {
        dd[i] - 48
    } else {
        0
    }
}

/// The value of the `k` digits that follow position `p` of a digit string,
/// read as a `k`-digit number (positions outside the string read as zero):
/// the fraction after a decimal point placed at `p`, scaled by ten to the
/// `k`.
pub open spec fn frac9_prefix(dd: Seq<u8>, p: int, k: int) -> int
    decreases k,
{
    if k <= 0 {
        0
    } else {
        frac9_prefix(dd, p, k - 1) * 10 + digit_at(dd, p + k - 1)
    }
}

/// Clamp a decimal-point position into a digit string.
pub open spec fn clip_pos(p: int, len: int) -> int {
    if p < 0 {
        0
    } else if p > len {
        len
    } else {
        p
    }
}

/// The word `inf` or `infinity`, ASCII-case-insensitively.
pub open spec fn spec_is_inf(d: Seq<u8>) -> bool {
    (d.len() == 3 && to_upper(d[0]) == 73 && to_upper(d[1]) == 78 && to_upper(d[2]) == 70) || (
    d.len() == 8 && to_upper(d[0]) == 73 && to_upper(d[1]) == 78 && to_upper(d[2]) == 70
        && to_upper(d[3]) == 73 && to_upper(d[4]) == 78 && to_upper(d[5]) == 73 && to_upper(d[6])
        == 84 && to_upper(d[7]) == 89)
}

/// The word `nan`, ASCII-case-insensitively.
pub open spec fn spec_is_nan(d: Seq<u8>) -> bool {
    d.len() == 3 && to_upper(d[0]) == 78 && to_upper(d[1]) == 65 && to_upper(d[2]) == 78
}

/// Ten to the `k`.
pub open spec fn pow10(k: nat) -> int
    decreases k,
{
    if k == 0 {
        1
    } else {
        10 * pow10((k - 1) as nat)
    }
}

/// A numeric lattice token read as an 8-bit channel, following the float
/// grammar: an optional sign, then either an infinity or not-a-number word,
/// or digits with an optional dot-fraction and an optional decimal exponent
/// (at least one mantissa digit in all). The value is clamped to [0,1] and
/// scaled by 255, rounding down: negatives and not-a-number read as 0,
/// infinities as 255; otherwise the digits are read exactly around the
/// exponent-shifted decimal point, any nonzero digit before the point makes
/// a full channel, and the nine digits after the point fix the fraction.
pub open spec fn spec_channel_value(t: Seq<u8>) -> Option<u8> {
    if t.len() == 0 {
        None
    } else {
        let neg = t[0] == 45;
        let d = if t[0] == 43 || t[0] == 45 {
            t.skip(1)
        } else {
            t
        };
        if spec_is_inf(d) {
            if neg {
                Some(0u8)
            } else {
                Some(255u8)
            }
        } else if spec_is_nan(d) {
            Some(0u8)
        } else {
            spec_numeric_channel(d, neg)
        }
    }
}

/// The numeric arm of the token grammar, over the unsigned part `d`: digits
/// with an optional dot-fraction and an optional decimal exponent; the
/// channel is the clamped, scaled value read exactly.
pub open spec fn spec_numeric_channel(d: Seq<u8>, neg: bool) -> Option<u8> {
    let ip = digits_prefix_len(d);
    let intp = d.take(ip);
    let rest = d.skip(ip);
    let has_dot = rest.len() >= 1 && rest[0] == 46;
    let fl = if has_dot {
        digits_prefix_len(rest.skip(1))
    } else {
        0
    };
    let frac = if has_dot {
        rest.skip(1).take(fl)
    } else {
        Seq::<u8>::empty()
    };
    let rest2 = if has_dot {
        rest.skip(1).skip(fl)
    } else {
        rest
    };
    let has_exp = rest2.len() >= 1 && (rest2[0] == 101 || rest2[0] == 69);
    let e1 = if has_exp {
        rest2.skip(1)
    } else {
        rest2
    };
    let eneg = e1.len() >= 1 && e1[0] == 45;
    let ed = if e1.len() >= 1 && (e1[0] == 43 || e1[0] == 45) {
        e1.skip(1)
    } else {
        e1
    };
    let shape_ok = (ip > 0 || fl > 0) && (if has_exp {
        ed.len() >= 1 && all_digits(ed)
    } else {
        rest2.len() == 0
    });
    if !shape_ok {
        None
    } else if neg {
        Some(0u8)
    } else {
        let exp = if has_exp {
            if eneg {
                -digits_val(ed)
            } else {
                digits_val(ed)
            }
        } else {
            0
        };
        let dd = intp + frac;
        let p = ip + exp;
        if digits_val(dd.take(clip_pos(p, dd.len() as int))) > 0 {
            Some(255u8)
        } else {
            Some(((255 * frac9_prefix(dd, p, 9)) / 1000000000) as u8)
        }
    }
}

/// The first eleven characters fold to `LUT_3D_SIZE`.
pub open spec fn spec_is_size_directive(t: Seq<u8>) -> bool {
    t.len() >= 11 && to_upper(t[0]) == 76 && to_upper(t[1]) == 85 && to_upper(t[2]) == 84
        && to_upper(t[3]) == 95 && to_upper(t[4]) == 51 && to_upper(t[5]) == 68 && to_upper(t[6])
        == 95 && to_upper(t[7]) == 83 && to_upper(t[8]) == 73 && to_upper(t[9]) == 90 && to_upper(
        t[10],
    ) == 69
}

/// The accumulated parse state: the size last set by a directive, and the
/// lattice values read so far.
pub struct CubeAcc {
    pub size: Option<int>,
    pub values: Seq<(u8, u8, u8)>,
}

/// How one line changes the parse state.
pub open spec fn spec_line_step(acc: CubeAcc, line: Seq<u8>) -> CubeAcc {
    let t = spec_trim(line);
    if t.len() == 0 || t[0] == 35 {
        acc
    } else if spec_is_size_directive(t) {
        let toks = spec_tokens(t);
        if toks.len() >= 2 {
            CubeAcc { size: spec_parse_usize(toks[1]), values: acc.values }
        } else {
            acc
        }
    } else {
        let toks = spec_tokens(t);
        if toks.len() == 3 {
            match (
                spec_channel_value(toks[0]),
                spec_channel_value(toks[1]),
                spec_channel_value(toks[2]),
            ) {
                (Some(a), Some(b), Some(c)) => CubeAcc {
                    size: acc.size,
                    values: acc.values.push((a, b, c)),
                },
                _ => acc,
            }
        } else {
            acc
        }
    }
}

/// Fold the line steps over a list of lines.
pub open spec fn spec_cube_fold(lines: Seq<Seq<u8>>, acc: CubeAcc) -> CubeAcc
    decreases lines.len(),
{
    if lines.len() == 0 {
        acc
    } else {
        spec_cube_fold(lines.skip(1), spec_line_step(acc, lines[0]))
    }
}

/// The full parse of a `.cube` text: either the lattice size with its
/// entries, or the message of the error raised. A directive size whose cube
/// no machine word holds is refused outright; a count that does not match the
/// size is reported with both numbers; a zero size describes no lattice and
/// is refused.
pub open spec fn spec_cube_parse(data: Seq<u8>) -> Result<(int, Seq<(u8, u8, u8)>), Seq<char>> {
    let acc = spec_cube_fold(
        spec_lines(data),
        CubeAcc { size: None, values: Seq::empty() },
    );
    let n = acc.values.len() as int;
    match acc.size {
        Some(sz) => if sz * sz * sz > usize::MAX {
            Err("LUT_3D_SIZE too large"@)
        } else if n != sz * sz * sz {
            Err(
                "Expected "@ + spec_decimal(sz * sz * sz) + " entries but found "@ + spec_decimal(
                    n,
                ),
            )
        } else if sz == 0 {
            Err("LUT_3D_SIZE must be positive"@)
        } else {
            Ok((sz, acc.values))
        },
        None => if n > 0 && (exists|r: int| 0 <= r <= n && #[trigger] (r * r * r) == n) {
            Ok((choose|r: int| 0 <= r <= n && #[trigger] (r * r * r) == n, acc.values))
        } else {
            Err("Missing LUT_3D_SIZE and cannot infer size"@)
        },
    }
}

/// The views of a list of byte vectors.
pub open spec fn views_of(s: Seq<Vec<u8>>) -> Seq<Seq<u8>> {
    Seq::new(s.len(), |i: int| s[i]@)
}

/// Whitespace test on one byte.
fn space_b(b: u8) -> (r: bool)
    ensures
        r == is_space(b),
{
    b == 32 || b == 9 || b == 11 || b == 12 || b == 13
}

/// Digit test on one byte.
fn digit_b(b: u8) -> (r: bool)
    ensures
        r == is_digit(b),
{
    48 <= b && b <= 57
}

/// Split a text into its lines.
fn split_lines(data: &Vec<u8>) -> (r: Vec<Vec<u8>>)
    ensures
        views_of(r@) == spec_lines(data@),
{
    let n = data.len();
    let mut done: Vec<Vec<u8>> = Vec::new();
    let mut cur: Vec<u8> = Vec::new();
    let mut i: usize = 0;
    while i < n
        invariant
            n == data@.len(),
            i <= n,
            views_of(done@).push(cur@) =~= spec_lines(data@.take(i as int)),
        decreases n - i,
    {
        let ghost pre = data@.take(i as int);
        let ghost p = spec_lines(pre);
        let b = data[i];
        proof {
            assert(data@.take(i + 1).drop_last() =~= pre);
            assert(data@.take(i + 1).last() == data@[i as int]);
            lemma_lines_nonempty(pre);
        }
        if b == 10 {
            let ghost od = done@;
            done.push(cur);
            cur = Vec::new();
            proof {
                assert(views_of(done@) =~= views_of(od).push(done@.last()@));
                assert(views_of(done@).push(cur@) =~= spec_lines(data@.take(i + 1)));
            }
        } else {
            let ghost oc = cur@;
            cur.push(b);
            proof {
                assert(p.update(p.len() - 1, p.last().push(b)) =~= views_of(done@).push(cur@));
            }
        }
        i = i + 1;
    }
    proof {
        assert(data@.take(n as int) =~= data@);
    }
    let ghost od = done@;
    done.push(cur);
    proof {
        assert(views_of(done@) =~= views_of(od).push(done@.last()@));
    }
    done
}

/// Remove whitespace from both ends of a line.
fn trim(line: &Vec<u8>) -> (r: Vec<u8>)
    ensures
        r@ == spec_trim(line@),
{
    let n = line.len();
    let mut a: usize = 0;
    while a < n && space_b(line[a])
        invariant
            n == line@.len(),
            a <= n,
            forall|j: int| 0 <= j < a ==> is_space(line@[j]),
        decreases n - a,
    {
        a = a + 1;
    }
    let mut b: usize = n;
    while b > a && space_b(line[b - 1])
        invariant
            n == line@.len(),
            a <= b <= n,
            forall|j: int| b <= j < n ==> is_space(line@[j]),
        decreases b,
    {
        b = b - 1;
    }
    let mut out: Vec<u8> = Vec::new();
    let mut i: usize = a;
    while i < b
        invariant
            n == line@.len(),
            a <= i <= b <= n,
            out@.len() == i - a,
            forall|j: int| 0 <= j < out@.len() ==> out@[j] == line@[a + j],
        decreases b - i,
    {
        out.push(line[i]);
        i = i + 1;
    }
    proof {
        lemma_trim_start_skip(line@, a as int);
        let s = line@.skip(a as int);
        lemma_trim_end_take(s, b - a);
        assert(s.take(b - a) =~= out@);
    }
    out
}

/// Split a trimmed line into whitespace-separated tokens.
fn tokenize(t: &Vec<u8>) -> (r: Vec<Vec<u8>>)
    ensures
        views_of(r@) == spec_tokens(t@),
{
    let n = t.len();
    let mut done: Vec<Vec<u8>> = Vec::new();
    let mut cur: Vec<u8> = Vec::new();
    let mut i: usize = 0;
    while i < n
        invariant
            n == t@.len(),
            i <= n,
            (cur@.len() == 0) <==> (i == 0 || is_space(t@[i - 1])),
            cur@.len() == 0 ==> views_of(done@) =~= spec_tokens(t@.take(i as int)),
            cur@.len() > 0 ==> views_of(done@).push(cur@) =~= spec_tokens(t@.take(i as int)),
        decreases n - i,
    {
        let ghost pre = t@.take(i as int);
        let ghost p = spec_tokens(pre);
        let b = t[i];
        proof {
            assert(t@.take(i + 1).drop_last() =~= pre);
            assert(t@.take(i + 1).last() == t@[i as int]);
        }
        if space_b(b) {
            if cur.len() > 0 {
                let ghost od = done@;
                done.push(cur);
                cur = Vec::new();
                proof {
                    assert(views_of(done@) =~= views_of(od).push(done@.last()@));
                    assert(views_of(done@) =~= spec_tokens(t@.take(i + 1)));
                }
            }
        } else {
            if cur.len() > 0 {
                cur.push(b);
                proof {
                    assert(p.update(p.len() - 1, p.last().push(b)) =~= views_of(done@).push(cur@));
                }
            } else {
                cur.push(b);
                proof {
                    assert(cur@ =~= seq![b]);
                    assert(p.push(seq![b]) =~= views_of(done@).push(cur@));
                }
            }
        }
        i = i + 1;
    }
    proof {
        assert(t@.take(n as int) =~= t@);
    }
    if cur.len() > 0 {
        let ghost od = done@;
        done.push(cur);
        proof {
            assert(views_of(done@) =~= views_of(od).push(done@.last()@));
        }
    }
    done
}

/// Does the trimmed line open with the size directive?
fn is_size_directive(t: &Vec<u8>) -> (r: bool)
    ensures
        r == spec_is_size_directive(t@),
{
    if t.len() < 11 {
        return false;
    }
    upper_b(t[0]) == 76 && upper_b(t[1]) == 85 && upper_b(t[2]) == 84 && upper_b(t[3]) == 95
        && upper_b(t[4]) == 51 && upper_b(t[5]) == 68 && upper_b(t[6]) == 95 && upper_b(t[7]) == 83
        && upper_b(t[8]) == 73 && upper_b(t[9]) == 90 && upper_b(t[10]) == 69
}

/// ASCII upper-casing of one byte.
fn upper_b(b: u8) -> (r: u8)
    ensures
        r == to_upper(b),
{
    if 97 <= b && b <= 122 {
        b - 32
    } else {
        b
    }
}

/// The value of an all-digit string never shrinks as digits are appended.
proof fn lemma_digits_val_mono(s: Seq<u8>, j: int)
    requires
        0 <= j <= s.len(),
        all_digits(s),
    ensures
        digits_val(s) >= digits_val(s.take(j)),
        digits_val(s) >= 0,
    decreases s.len(),
{
    if s.len() == 0 {
    } else {
        assert(all_digits(s.drop_last()));
        lemma_digits_val_mono(s.drop_last(), if j <= s.len() - 1 {
            j
        } else {
            s.len() - 1
        });
        if j <= s.len() - 1 {
            assert(s.drop_last().take(j) =~= s.take(j));
        } else {
            assert(s.take(j) =~= s);
        }
        assert(digits_val(s.drop_last()) * 10 >= digits_val(s.drop_last())) by (nonlinear_arith)
            requires
                digits_val(s.drop_last()) >= 0,
        ;
    }
}

/// An all-digit string of length `k` stays below ten to the `k`.
proof fn lemma_digits_val_bound(s: Seq<u8>)
    requires
        all_digits(s),
    ensures
        0 <= digits_val(s) < pow10(s.len() as nat),
    decreases s.len(),
{
    if s.len() == 0 {
    } else {
        assert(all_digits(s.drop_last()));
        lemma_digits_val_bound(s.drop_last());
        assert(digits_val(s.drop_last()) * 10 + 10 <= pow10(s.drop_last().len() as nat) * 10)
            by (nonlinear_arith)
            requires
                digits_val(s.drop_last()) < pow10(s.drop_last().len() as nat),
        ;
    }
}

/// Parse a nonnegative integer token as `usize::parse` does.
fn parse_usize_token(t: &Vec<u8>) -> (r: Option<usize>)
    ensures
        match r {
            Some(v) => spec_parse_usize(t@) == Some(v as int),
            None => spec_parse_usize(t@) is None,
        },
{
    let n = t.len();
    let start: usize = if n > 0 && t[0] == 43 {
        1
    } else {
        0
    };
    let ghost d = if t@.len() > 0 && t@[0] == 43 {
        t@.skip(1)
    } else {
        t@
    };
    if start == n {
        return None;
    }
    let mut acc: u64 = 0;
    let mut i: usize = start;
    while i < n
        invariant
            n == t@.len(),
            start <= i <= n,
            start < n,
            start == 0 || start == 1,
            start == 1 ==> t@.len() > 0 && t@[0] == 43 && d =~= t@.skip(1),
            start == 0 ==> !(t@.len() > 0 && t@[0] == 43) && d =~= t@,
            d.len() == n - start,
            forall|j: int| 0 <= j < d.len() ==> d[j] == t@[start + j],
            forall|j: int| 0 <= j < i - start ==> is_digit(d[j]),
            acc == digits_val(d.take(i - start)),
            acc <= usize::MAX,
        decreases n - i,
    {
        let b = t[i];
        if b < 48 || b > 57 {
            proof {
                assert(!is_digit(d[i - start]));
                assert(!all_digits(d));
            }
            return None;
        }
        let digit: u64 = (b - 48) as u64;
        if acc > (usize::MAX as u64 - digit) / 10 {
            proof {
                let pre = d.take(i - start + 1);
                assert(all_digits(pre));
                assert(pre.drop_last() =~= d.take(i - start));
                assert(digits_val(pre) == acc * 10 + digit);
                assert(acc * 10 + digit > usize::MAX) by {
                    vstd::arithmetic::div_mod::lemma_fundamental_div_mod(
                        usize::MAX as u64 - digit,
                        10,
                    );
                    assert(acc * 10 >= ((usize::MAX as u64 - digit) / 10 + 1) * 10)
                        by (nonlinear_arith)
                        requires
                            acc >= (usize::MAX as u64 - digit) / 10 + 1,
                    ;
                }
                if all_digits(d) {
                    lemma_digits_val_mono(d, i - start + 1);
                    assert(d.take(i - start + 1) =~= pre);
                }
                assert(!all_digits(d) || digits_val(d) > usize::MAX);
                assert(spec_parse_usize(t@) is None);
            }
            return None;
        }
        proof {
            vstd::arithmetic::div_mod::lemma_fundamental_div_mod(usize::MAX as u64 - digit, 10);
            assert(acc * 10 <= ((usize::MAX as u64 - digit) / 10) * 10) by (nonlinear_arith)
                requires
                    acc <= (usize::MAX as u64 - digit) / 10,
            ;
            assert(d.take(i - start + 1).drop_last() =~= d.take(i - start));
        }
        acc = acc * 10 + digit;
        i = i + 1;
    }
    proof {
        assert(d.take(n - start) =~= d);
        assert(all_digits(d));
    }
    Some(acc as usize)
}

/// Counting the leading digits realizes `digits_prefix_len`.
proof fn lemma_digits_prefix_count(s: Seq<u8>, c: int)
    requires
        0 <= c <= s.len(),
        forall|j: int| 0 <= j < c ==> is_digit(s[j]),
        c == s.len() || !is_digit(s[c]),
    ensures
        digits_prefix_len(s) == c,
    decreases c,
{
    if c > 0 {
        assert(is_digit(s[0]));
        lemma_digits_prefix_count(s.skip(1), c - 1);
    } else {
        if s.len() > 0 {
            assert(!is_digit(s[0]));
        }
    }
}

/// The first ten powers of ten.
proof fn lemma_pow10_vals()
    ensures
        pow10(0) == 1,
        pow10(1) == 10,
        pow10(2) == 100,
        pow10(3) == 1000,
        pow10(4) == 10000,
        pow10(5) == 100000,
        pow10(6) == 1000000,
        pow10(7) == 10000000,
        pow10(8) == 100000000,
        pow10(9) == 1000000000,
{
    reveal_with_fuel(pow10, 11);
}

/// An all-digit string has a positive value exactly when some digit is not
/// `0`.
proof fn lemma_digits_val_zero(s: Seq<u8>)
    requires
        all_digits(s),
    ensures
        (digits_val(s) > 0) <==> (exists|i: int| 0 <= i < s.len() && s[i] != 48),
    decreases s.len(),
{
    if s.len() > 0 {
        assert(all_digits(s.drop_last()));
        lemma_digits_val_zero(s.drop_last());
        lemma_digits_val_bound(s.drop_last());
        if s.last() != 48 {
            assert(s[s.len() - 1] != 48);
            assert(digits_val(s.drop_last()) * 10 >= 0) by (nonlinear_arith)
                requires
                    digits_val(s.drop_last()) >= 0,
            ;
        } else if digits_val(s.drop_last()) > 0 {
            let i = choose|i: int| 0 <= i < s.drop_last().len() && s.drop_last()[i] != 48;
            assert(s[i] != 48);
            assert(digits_val(s.drop_last()) * 10 >= 10) by (nonlinear_arith)
                requires
                    digits_val(s.drop_last()) >= 1,
            ;
        } else {
            if exists|i: int| 0 <= i < s.len() && s[i] != 48 {
                let i = choose|i: int| 0 <= i < s.len() && s[i] != 48;
                assert(i < s.len() - 1);
                assert(s.drop_last()[i] != 48);
            }
            assert(digits_val(s.drop_last()) * 10 == 0) by (nonlinear_arith)
                requires
                    digits_val(s.drop_last()) == 0,
            ;
        }
    }
}

/// A fraction window that misses the digit string entirely reads zero.
proof fn lemma_frac9_prefix_zero(dd: Seq<u8>, p: int, k: int)
    requires
        p >= dd.len() || p + k <= 0,
    ensures
        frac9_prefix(dd, p, k) == 0,
    decreases k,
{
    if k > 0 {
        lemma_frac9_prefix_zero(dd, p, k - 1);
    }
}

/// Count the run of decimal digits that starts at `from`.
#[verifier::loop_isolation(false)]
fn scan_digits(t: &Vec<u8>, from: usize) -> (e: usize)
    requires
        from <= t@.len(),
    ensures
        from <= e <= t@.len(),
        (e - from) as int == digits_prefix_len(t@.skip(from as int)),
        forall|k: int| from <= k < e ==> is_digit(t@[k]),
        e < t@.len() ==> !is_digit(t@[e as int]),
{
    let n = t.len();
    let mut e = from;
    while e < n && digit_b(t[e])
        invariant
            from <= e <= n,
            forall|k: int| from <= k < e ==> is_digit(t@[k]),
        decreases n - e,
    {
        e = e + 1;
    }
    proof {
        let sfx = t@.skip(from as int);
        assert(forall|m: int| 0 <= m < e - from ==> is_digit(sfx[m]));
        if e < n {
            assert(sfx[e - from] == t@[e as int]);
        }
        lemma_digits_prefix_count(sfx, (e - from) as int);
    }
    e
}

/// Recognize the infinity and not-a-number words at the head of a signed
/// token and give their channel value.
fn keyword_channel(t: &Vec<u8>, start: usize, neg: bool, Ghost(d): Ghost<Seq<u8>>) -> (r: Option<
    u8,
>)
    requires
        start <= t@.len(),
        d.len() == t@.len() - start,
        forall|j: int| 0 <= j < d.len() ==> d[j] == t@[start + j],
    ensures
        spec_is_inf(d) ==> r == Some(
            if neg {
                0u8
            } else {
                255u8
            },
        ),
        !spec_is_inf(d) && spec_is_nan(d) ==> r == Some(0u8),
        !spec_is_inf(d) && !spec_is_nan(d) ==> r is None,
{
    let n = t.len();
    let dl = n - start;
    if dl == 3 && upper_b(t[start]) == 73 && upper_b(t[start + 1]) == 78 && upper_b(t[start + 2])
        == 70 {
        return if neg {
            Some(0)
        } else {
            Some(255)
        };
    }
    if dl == 8 && upper_b(t[start]) == 73 && upper_b(t[start + 1]) == 78 && upper_b(t[start + 2])
        == 70 && upper_b(t[start + 3]) == 73 && upper_b(t[start + 4]) == 78 && upper_b(
        t[start + 5],
    ) == 73 && upper_b(t[start + 6]) == 84 && upper_b(t[start + 7]) == 89 {
        return if neg {
            Some(0)
        } else {
            Some(255)
        };
    }
    if dl == 3 && upper_b(t[start]) == 78 && upper_b(t[start + 1]) == 65 && upper_b(t[start + 2])
        == 78 {
        return Some(0);
    }
    None
}

/// Read the exponent digits from `es` to the end of the token, saturating
/// the value at one past any meaningful shift.
#[verifier::loop_isolation(false)]
#[verifier::rlimit(100)]
fn parse_exp_digits(t: &Vec<u8>, es: usize, Ghost(ed): Ghost<Seq<u8>>) -> (r: Option<u128>)
    requires
        es < t@.len(),
        ed =~= t@.skip(es as int),
    ensures
        r is None ==> !all_digits(ed),
        r matches Some(acc) ==> all_digits(ed) && acc <= t@.len() + 16 && acc <= digits_val(ed)
            && (digits_val(ed) <= t@.len() + 16 ==> acc == digits_val(ed)) && (digits_val(ed)
            > t@.len() + 16 ==> acc == t@.len() + 16),
{
    let n = t.len();
    let limit: u128 = (n as u128) + 16;
    let mut acc: u128 = 0;
    let mut k: usize = es;
    while k < n
        invariant
            es <= k <= n,
            n == t@.len(),
            ed =~= t@.skip(es as int),
            forall|m: int| 0 <= m < k - es ==> is_digit(ed[m]),
            limit == n + 16,
            acc <= limit,
            digits_val(ed.take((k - es) as int)) <= limit ==> acc == digits_val(
                ed.take((k - es) as int),
            ),
            digits_val(ed.take((k - es) as int)) > limit ==> acc == limit,
        decreases n - k,
    {
        proof {
            assert(ed[k - es] == t@[k as int]);
        }
        if !digit_b(t[k]) {
            proof {
                assert(!all_digits(ed));
            }
            return None;
        }
        let dig = (t[k] - 48) as u128;
        proof {
            let pre = ed.take((k - es) as int);
            let pre1 = ed.take(k - es + 1);
            assert(pre1.drop_last() =~= pre);
            assert(pre1.last() == t@[k as int]);
            assert(all_digits(pre));
            lemma_digits_val_bound(pre);
            assert(digits_val(pre1) == digits_val(pre) * 10 + (t@[k as int] - 48));
            if digits_val(pre) > limit {
                assert(digits_val(pre) * 10 >= digits_val(pre)) by (nonlinear_arith)
                    requires
                        digits_val(pre) >= 0,
                ;
            }
        }
        let next: u128 = acc * 10 + dig;
        acc = if next > limit {
            limit
        } else {
            next
        };
        k = k + 1;
    }
    proof {
        assert(ed.take((n - es) as int) =~= ed);
        assert(all_digits(ed));
        lemma_digits_val_bound(ed);
    }
    Some(acc)
}

/// Does any digit of `dd` before position `clip` differ from zero? Exactly
/// the test for a value of one or more.
#[verifier::loop_isolation(false)]
#[verifier::rlimit(100)]
fn scan_nonzero(
    t: &Vec<u8>,
    start: usize,
    ip_e: usize,
    fs: usize,
    clip: usize,
    Ghost(dd): Ghost<Seq<u8>>,
) -> (nz: bool)
    requires
        dd.len() <= t@.len(),
        clip <= dd.len(),
        all_digits(dd),
        ip_e <= dd.len(),
        start + ip_e <= t@.len(),
        fs + (dd.len() - ip_e) <= t@.len(),
        forall|u: int| 0 <= u < ip_e ==> dd[u] == t@[start + u],
        forall|u: int| ip_e <= u < dd.len() ==> dd[u] == t@[fs + (u - ip_e)],
    ensures
        nz == (digits_val(dd.take(clip as int)) > 0),
{
    let n = t.len();
    let mut nz = false;
    let mut u: usize = 0;
    while u < clip
        invariant
            u <= clip,
            nz <==> (exists|m: int| 0 <= m < u && dd[m] != 48),
        decreases clip - u,
    {
        proof {
            assert(u < dd.len());
            if u < ip_e {
                assert(start + u < t@.len());
            } else {
                assert(fs + (u - ip_e) < t@.len());
            }
        }
        let b = if u < ip_e {
            t[start + u]
        } else {
            t[fs + (u - ip_e)]
        };
        proof {
            assert(b == dd[u as int]);
        }
        if b != 48 {
            nz = true;
        }
        u = u + 1;
    }
    proof {
        let pre = dd.take(clip as int);
        assert(all_digits(pre));
        lemma_digits_val_zero(pre);
        if nz {
            let m = choose|m: int| 0 <= m < clip && dd[m] != 48;
            assert(pre[m] != 48);
        }
        if exists|m: int| 0 <= m < pre.len() && pre[m] != 48 {
            let m = choose|m: int| 0 <= m < pre.len() && pre[m] != 48;
            assert(dd[m] != 48);
        }
    }
    nz
}

/// The nine fraction digits after the (possibly shifted) decimal point.
#[verifier::loop_isolation(false)]
#[verifier::rlimit(100)]
fn frac_window(
    t: &Vec<u8>,
    start: usize,
    ip_e: usize,
    fs: usize,
    dlen: usize,
    p128: i128,
    Ghost(dd): Ghost<Seq<u8>>,
    Ghost(p): Ghost<int>,
) -> (f9: u64)
    requires
        p128 == p,
        -0x4_0000_0000_0000_0000 <= p128 <= 0x4_0000_0000_0000_0000,
        dlen == dd.len(),
        dd.len() <= t@.len(),
        all_digits(dd),
        ip_e <= dd.len(),
        start + ip_e <= t@.len(),
        fs + (dd.len() - ip_e) <= t@.len(),
        forall|u: int| 0 <= u < ip_e ==> dd[u] == t@[start + u],
        forall|u: int| ip_e <= u < dd.len() ==> dd[u] == t@[fs + (u - ip_e)],
    ensures
        f9 == frac9_prefix(dd, p, 9),
        f9 <= 999999999,
{
    let n = t.len();
    proof {
        lemma_pow10_vals();
    }
    let mut f9: u64 = 0;
    let mut kk: usize = 0;
    while kk < 9
        invariant
            kk <= 9,
            p128 == p,
            f9 == frac9_prefix(dd, p, kk as int),
            f9 < pow10(kk as nat),
            pow10(9) == 1000000000,
        decreases 9 - kk,
    {
        let idx: i128 = p128 + kk as i128;
        let dig: u64 = if 0 <= idx && idx < dlen as i128 {
            let ui = idx as usize;
            proof {
                assert(0 <= (idx as int) && (idx as int) < dd.len());
                assert(ui == idx as int);
                if ui < ip_e {
                    assert(start + ui < t@.len());
                } else {
                    assert(fs + (ui - ip_e) < t@.len());
                }
            }
            let b = if ui < ip_e {
                t[start + ui]
            } else {
                t[fs + (ui - ip_e)]
            };
            proof {
                assert(b == dd[idx as int]);
                assert(is_digit(dd[idx as int]));
            }
            (b - 48) as u64
        } else {
            0
        };
        proof {
            assert(dig == digit_at(dd, p + kk));
            lemma_pow10_vals();
            assert(f9 * 10 + 10 <= pow10((kk + 1) as nat)) by (nonlinear_arith)
                requires
                    f9 < pow10(kk as nat) && pow10((kk + 1) as nat) == 10 * pow10(kk as nat),
            ;
            assert(pow10((kk + 1) as nat) <= pow10(9)) by {
                reveal_with_fuel(pow10, 11);
            }
        }
        f9 = f9 * 10 + dig;
        kk = kk + 1;
    }
    f9
}

/// Parse a numeric lattice token into an 8-bit channel value.
#[verifier::rlimit(100)]
fn channel_value_token(t: &Vec<u8>) -> (r: Option<u8>)
    ensures
        r == spec_channel_value(t@),
{
    let n = t.len();
    if n == 0 {
        return None;
    }
    let neg = t[0] == 45;
    let start: usize = if t[0] == 43 || t[0] == 45 {
        1
    } else {
        0
    };
    let ghost d = if t@[0] == 43 || t@[0] == 45 {
        t@.skip(1)
    } else {
        t@
    };
    proof {
        assert(d.len() == n - start);
        assert(forall|j: int| 0 <= j < d.len() ==> d[j] == t@[start + j]);
        assert(d =~= t@.skip(start as int));
    }
    match keyword_channel(t, start, neg, Ghost(d)) {
        Some(v) => {
            return Some(v);
        },
        None => {},
    }
    numeric_channel_token(t, start, neg, Ghost(d))
}

/// Parse the numeric arm of a token whose sign has been read and which is no
/// keyword.
#[verifier::rlimit(100)]
fn numeric_channel_token(t: &Vec<u8>, start: usize, neg: bool, Ghost(d): Ghost<Seq<u8>>) -> (r:
    Option<u8>)
    requires
        start <= t@.len(),
        d =~= t@.skip(start as int),
    ensures
        r == spec_numeric_channel(d, neg),
{
    let n = t.len();
    proof {
        assert(d.len() == n - start);
        assert(forall|j: int| 0 <= j < d.len() ==> d[j] == t@[start + j]);
    }
    let i = scan_digits(t, start);
    let ghost ip = i - start;
    proof {
        assert(d =~= t@.skip(start as int));
        assert(digits_prefix_len(d) == ip);
    }
    let ghost intp = d.take(ip);
    let ghost rest = d.skip(ip);
    proof {
        assert(all_digits(intp));
        assert(rest =~= t@.skip(i as int));
    }
    let has_dot = i < n && t[i] == 46;
    let fs: usize = if has_dot {
        i + 1
    } else {
        i
    };
    let j = scan_digits(t, fs);
    let ghost fl = (j - fs) as int;
    let ghost frac = if has_dot {
        rest.skip(1).take(fl)
    } else {
        Seq::<u8>::empty()
    };
    let ghost rest2 = if has_dot {
        rest.skip(1).skip(fl)
    } else {
        rest
    };
    proof {
        if has_dot {
            assert(rest.skip(1) =~= t@.skip(fs as int));
            assert(digits_prefix_len(rest.skip(1)) == fl);
            assert(forall|k: int| 0 <= k < fl ==> is_digit(rest.skip(1)[k]));
            assert(rest2 =~= t@.skip(j as int));
        } else {
            assert(t@.skip(fs as int) =~= rest);
            assert(digits_prefix_len(rest) == 0);
            assert(j == fs);
            assert(rest2 =~= t@.skip(j as int));
        }
        assert(all_digits(frac));
        assert(frac.len() == fl);
    }
    if i == start && j == fs {
        proof {
            assert(ip == 0 && fl == 0);
        }
        return None;
    }
    let has_exp = j < n && (t[j] == 101 || t[j] == 69);
    if !has_exp && j < n {
        proof {
            assert(rest2.len() == n - j);
            assert(rest2[0] == t@[j as int]);
        }
        return None;
    }
    let ghost e1 = rest2.skip(1);
    let ghost ed = if e1.len() >= 1 && (e1[0] == 43 || e1[0] == 45) {
        e1.skip(1)
    } else {
        e1
    };
    let mut exp_neg = false;
    let mut es: usize = j;
    let mut acc: u128 = 0;
    if has_exp {
        es = j + 1;
        proof {
            assert(e1 =~= t@.skip(es as int));
        }
        if es < n && (t[es] == 43 || t[es] == 45) {
            proof {
                assert(e1[0] == t@[es as int]);
            }
            exp_neg = t[es] == 45;
            es = es + 1;
        }
        proof {
            assert(ed =~= t@.skip(es as int));
            assert(exp_neg == (e1.len() >= 1 && e1[0] == 45));
        }
        if es == n {
            proof {
                assert(ed.len() == 0);
            }
            return None;
        }
        match parse_exp_digits(t, es, Ghost(ed)) {
            Some(a) => {
                acc = a;
            },
            None => {
                return None;
            },
        }
    }
    if neg {
        return Some(0);
    }
    let ip_e: usize = i - start;
    let fl_e: usize = j - fs;
    let dlen: usize = ip_e + fl_e;
    let ghost dd = intp + frac;
    let ghost exp = if has_exp {
        if exp_neg {
            -digits_val(ed)
        } else {
            digits_val(ed)
        }
    } else {
        0int
    };
    let ghost edval = if has_exp {
        digits_val(ed)
    } else {
        0int
    };
    proof {
        assert(dd.len() == dlen);
        assert forall|u: int| 0 <= u < dd.len() implies is_digit(dd[u]) by {
            if u < ip {
                assert(dd[u] == intp[u]);
            } else {
                assert(dd[u] == frac[u - ip]);
            }
        }
        assert(forall|u: int| 0 <= u < ip ==> dd[u] == t@[start + u]);
        assert(forall|u: int| ip <= u < dd.len() ==> dd[u] == t@[fs + (u - ip)]);
        if has_exp {
            lemma_digits_val_bound(ed);
        }
    }
    let v = number_channel(
        t,
        start,
        ip_e,
        fs,
        dlen,
        has_exp,
        exp_neg,
        acc,
        Ghost(dd),
        Ghost(exp),
        Ghost(edval),
    );
    Some(v)
}

/// The channel of a well-shaped, non-negative numeric token: test the digits
/// before the exponent-shifted decimal point, then read the nine fraction
/// digits after it.
#[verifier::loop_isolation(false)]
#[verifier::rlimit(100)]
fn number_channel(
    t: &Vec<u8>,
    start: usize,
    ip_e: usize,
    fs: usize,
    dlen: usize,
    has_exp: bool,
    exp_neg: bool,
    acc: u128,
    Ghost(dd): Ghost<Seq<u8>>,
    Ghost(exp): Ghost<int>,
    Ghost(edval): Ghost<int>,
) -> (v: u8)
    requires
        dlen == dd.len(),
        dd.len() <= t@.len(),
        all_digits(dd),
        ip_e <= dd.len(),
        start + ip_e <= t@.len(),
        fs + (dd.len() - ip_e) <= t@.len(),
        forall|u: int| 0 <= u < ip_e ==> dd[u] == t@[start + u],
        forall|u: int| ip_e <= u < dd.len() ==> dd[u] == t@[fs + (u - ip_e)],
        edval >= 0,
        exp == (if has_exp {
            if exp_neg {
                -edval
            } else {
                edval
            }
        } else {
            0
        }),
        has_exp ==> (edval <= t@.len() + 16 ==> acc == edval),
        has_exp ==> (edval > t@.len() + 16 ==> acc == t@.len() + 16),
        has_exp ==> acc <= t@.len() + 16 && acc <= edval,
        !has_exp ==> acc == 0,
    ensures
        ({
            let p = ip_e + exp;
            v == (if digits_val(dd.take(clip_pos(p, dd.len() as int))) > 0 {
                255u8
            } else {
                (((255 * frac9_prefix(dd, p, 9)) / 1000000000) as u8)
            })
        }),
{
    let n = t.len();
    let fl_e: usize = dlen - ip_e;
    let limit: u128 = (n as u128) + 16;
    let ghost p = ip_e + exp;
    let clip: usize = if !has_exp {
        ip_e
    } else if exp_neg {
        if acc >= ip_e as u128 {
            0
        } else {
            ip_e - acc as usize
        }
    } else {
        if acc >= fl_e as u128 {
            dlen
        } else {
            ip_e + acc as usize
        }
    };
    proof {
        assert(clip == clip_pos(p, dd.len() as int));
    }
    let nz = scan_nonzero(t, start, ip_e, fs, clip, Ghost(dd));
    if nz {
        return 255;
    }
    if has_exp && acc >= limit {
        proof {
            assert(edval >= limit);
            if exp_neg {
                assert(p + 9 <= 0);
            } else {
                assert(p >= dd.len());
            }
            lemma_frac9_prefix_zero(dd, p, 9);
        }
        return 0;
    }
    let p128: i128 = if !has_exp {
        ip_e as i128
    } else if exp_neg {
        ip_e as i128 - acc as i128
    } else {
        ip_e as i128 + acc as i128
    };
    proof {
        assert(p128 == p);
    }
    let f9 = frac_window(t, start, ip_e, fs, dlen, p128, Ghost(dd), Ghost(p));
    proof {
        assert(255 * f9 <= 255 * 999999999) by (nonlinear_arith)
            requires
                f9 <= 999999999,
        ;
        vstd::arithmetic::div_mod::lemma_div_is_ordered(
            255 * (f9 as int),
            (255 * 999999999) as int,
            1000000000,
        );
    }
    let v: u64 = (255 * f9) / 1000000000;
    v as u8
}

/// The parse state an exec scan holds, abstracted.
pub open spec fn cur_acc(so: Option<usize>, vals: Seq<(u8, u8, u8)>) -> CubeAcc {
    CubeAcc {
        size: match so {
            Some(s) => Some(s as int),
            None => None,
        },
        values: vals,
    }
}

/// The cube of a small number, exactly.
fn cube_u64(x: u64) -> (r: u64)
    requires
        x <= 2642245,
    ensures
        r == (x as int) * (x as int) * (x as int),
{
    proof {
        assert((x as int) * (x as int) <= 2642245int * 2642245 && (x as int) * (x as int) >= 0
            && (x as int) * (x as int) * (x as int) <= 2642245int * 2642245 * 2642245 && (x as int)
            * (x as int) * (x as int) >= 0 && 2642245int * 2642245 * 2642245
            < 0xffff_ffff_ffff_ffff) by (nonlinear_arith)
            requires
                0 <= x <= 2642245,
        ;
    }
    x * x * x
}

/// Cubing is strictly monotone on nonnegative integers.
proof fn lemma_cube_mono(a: int, b: int)
    requires
        0 <= a < b,
    ensures
        a * a * a < b * b * b,
{
    assert(a * a * a < b * b * b) by (nonlinear_arith)
        requires
            0 <= a < b,
    ;
}

/// A minimal 3D LUT: `size`³ RGB entries, red fastest, then green, then blue.
pub struct Lut3D {
    pub size: usize,
    pub entries: Vec<(u8, u8, u8)>,
}

impl Lut3D {
    /// The entry list covers the whole lattice.
    pub open spec fn wf(self) -> bool {
        self.entries@.len() == (self.size as int) * (self.size as int) * (self.size as int)
    }

    /// Load a small subset of `.cube` texts: comments, a `LUT_3D_SIZE`
    /// directive, and lattice values in 0..1; see the module description for
    /// the exact grammar. Errors: a value count that does not match the
    /// directive, or, with no directive, a count that is not a positive
    /// perfect cube.
    #[verifier::loop_isolation(false)]
    #[verifier::rlimit(60)]
    pub fn from_cube(data: &Vec<u8>) -> (r: Result<Lut3D, LutError>)
        ensures
            match spec_cube_parse(data@) {
                Ok(t) => r matches Ok(l) && l.size as int == t.0 && l.entries@ == t.1 && l.wf()
                    && l.size >= 1,
                Err(msg) => r matches Err(LutError::Parse(m)) && m@ == msg,
            },
    {
        let lines = split_lines(data);
        let ghost lv = views_of(lines@);
        let ghost acc0 = CubeAcc { size: None, values: Seq::empty() };
        let mut size_opt: Option<usize> = None;
        let mut values: Vec<(u8, u8, u8)> = Vec::new();
        let n = lines.len();
        proof {
            assert(lv.skip(0) =~= lv);
            assert(values@ =~= Seq::<(u8, u8, u8)>::empty());
        }
        let mut i: usize = 0;
        while i < n
            invariant
                i <= n,
                spec_cube_fold(lv.skip(i as int), cur_acc(size_opt, values@)) == spec_cube_fold(
                    lv,
                    acc0,
                ),
            decreases n - i,
        {
            let ghost pre_acc = cur_acc(size_opt, values@);
            let t = trim(&lines[i]);
            proof {
                assert(lv[i as int] == lines@[i as int]@);
                assert(t@ == spec_trim(lv[i as int]));
            }
            if t.len() == 0 || t[0] == 35 {
            } else if is_size_directive(&t) {
                let toks = tokenize(&t);
                if toks.len() >= 2 {
                    proof {
                        assert(views_of(toks@)[1] == toks@[1]@);
                    }
                    size_opt = parse_usize_token(&toks[1]);
                    proof {
                        match size_opt {
                            Some(v) => {
                                assert(spec_parse_usize(spec_tokens(t@)[1]) == Some(v as int));
                            },
                            None => {
                                assert(spec_parse_usize(spec_tokens(t@)[1]) is None);
                            },
                        }
                    }
                }
            } else {
                let toks = tokenize(&t);
                if toks.len() == 3 {
                    proof {
                        assert(views_of(toks@)[0] == toks@[0]@);
                        assert(views_of(toks@)[1] == toks@[1]@);
                        assert(views_of(toks@)[2] == toks@[2]@);
                    }
                    let a = channel_value_token(&toks[0]);
                    let b = channel_value_token(&toks[1]);
                    let c = channel_value_token(&toks[2]);
                    match (a, b, c) {
                        (Some(x), Some(y), Some(z)) => {
                            values.push((x, y, z));
                        },
                        _ => {},
                    }
                }
            }
            proof {
                assert(cur_acc(size_opt, values@) == spec_line_step(pre_acc, lv[i as int]));
                assert(lv.skip(i as int).skip(1) =~= lv.skip(i + 1));
                assert(lv.skip(i as int)[0] == lv[i as int]);
                assert(spec_cube_fold(lv.skip(i as int), pre_acc) == spec_cube_fold(
                    lv.skip(i + 1),
                    cur_acc(size_opt, values@),
                ));
            }
            i = i + 1;
        }
        proof {
            assert(lv.skip(n as int) =~= Seq::<Seq<u8>>::empty());
            assert(cur_acc(size_opt, values@) == spec_cube_fold(lv, acc0));
        }
        let count = values.len();
        match size_opt {
            Some(sz) => {
                if sz > 2642245 {
                    proof {
                        assert((sz as int) * (sz as int) * (sz as int) > 0xffff_ffff_ffff_ffffint)
                            by (nonlinear_arith)
                            requires
                                sz >= 2642246,
                        ;
                    }
                    return Err(LutError::Parse(String::from_str("LUT_3D_SIZE too large")));
                }
                let cube: u64 = cube_u64(sz as u64);
                if cube > usize::MAX as u64 {
                    return Err(LutError::Parse(String::from_str("LUT_3D_SIZE too large")));
                }
                if (count as u64) != cube {
                    let msg = String::from_str("Expected ").concat(
                        u64_to_string(cube).as_str(),
                    ).concat(" entries but found ").concat(u64_to_string(count as u64).as_str());
                    return Err(LutError::Parse(msg));
                }
                if sz == 0 {
                    return Err(LutError::Parse(String::from_str("LUT_3D_SIZE must be positive")));
                }
                Ok(Lut3D { size: sz, entries: values })
            },
            None => {
                if count == 0 {
                    return Err(
                        LutError::Parse(
                            String::from_str("Missing LUT_3D_SIZE and cannot infer size"),
                        ),
                    );
                }
                let mut rr: usize = 0;
                while rr < 2642245 && cube_u64((rr + 1) as u64) <= count as u64
                    invariant
                        rr <= 2642245,
                        (rr as int) * (rr as int) * (rr as int) <= count,
                    decreases 2642245 - rr,
                {
                    rr = rr + 1;
                }
                let rcube: u64 = cube_u64(rr as u64);
                if rcube == count as u64 {
                    proof {
                        assert(rr <= count) by (nonlinear_arith)
                            requires
                                0 <= rr && (rr as int) * (rr as int) * (rr as int) == count
                                    && count > 0,
                        ;
                        assert(exists|r: int|
                            0 <= r <= count as int && #[trigger] (r * r * r) == count as int) by {
                            assert((rr as int) * (rr as int) * (rr as int) == count as int);
                        }
                        let rch = choose|r: int|
                            0 <= r <= count as int && #[trigger] (r * r * r) == count as int;
                        if rch < rr {
                            lemma_cube_mono(rch, rr as int);
                            assert(false);
                        } else if rch > rr {
                            lemma_cube_mono(rr as int, rch);
                            assert(false);
                        }
                    }
                    Ok(Lut3D { size: rr, entries: values })
                } else {
                    proof {
                        if exists|r: int|
                            0 <= r <= count as int && #[trigger] (r * r * r) == count as int {
                            let rch = choose|r: int|
                                0 <= r <= count as int && #[trigger] (r * r * r) == count
                                    as int;
                            assert(rch <= 2642245) by {
                                if rch > 2642245 {
                                    assert(rch * rch * rch > 0xffff_ffff_ffff_ffffint)
                                        by (nonlinear_arith)
                                        requires
                                            rch >= 2642246,
                                    ;
                                    assert(count <= usize::MAX);
                                    assert(false);
                                }
                            }
                            if rch < rr {
                                lemma_cube_mono(rch, rr as int);
                                assert(false);
                            } else if rch > rr {
                                assert(rr < 2642245);
                                lemma_cube_mono(rr + 1, rch + 1);
                                assert(((rr + 1) as int) * ((rr + 1) as int) * ((rr + 1) as int)
                                    <= rch * rch * rch) by (nonlinear_arith)
                                    requires
                                        0 <= rr && rr + 1 <= rch,
                                ;
                                assert(false);
                            } else {
                                assert(false);
                            }
                        }
                    }
                    Err(
                        LutError::Parse(
                            String::from_str("Missing LUT_3D_SIZE and cannot infer size"),
                        ),
                    )
                }
            },
        }
    }
}

/// Flattened index of lattice entry (r, g, b): red fastest, then green, then
/// blue.
pub open spec fn spec_lut_index(size: int, r: int, g: int, b: int) -> int {
    r + g * size + b * size * size
}

/// Map an 8-bit channel into lattice index space: `ch * (size-1) / 255`,
/// rounding down (nearest lattice point from below; no interpolation).
pub open spec fn spec_lattice_coord(size: int, ch: u8) -> int {
    ch * (size - 1) / 255
}

/// The LUT applied to one pixel: nearest-neighbor lookup of the color, alpha
/// preserved from the source.
pub open spec fn spec_lut_px(size: int, entries: Seq<(u8, u8, u8)>, px: (u8, u8, u8, u8)) -> (
    u8,
    u8,
    u8,
    u8,
) {
    let e = entries[spec_lut_index(
        size,
        spec_lattice_coord(size, px.0),
        spec_lattice_coord(size, px.1),
        spec_lattice_coord(size, px.2),
    )];
    (e.0, e.1, e.2, px.3)
}

/// The raw bytes of an image after LUT application.
pub open spec fn spec_lut_data(size: int, entries: Seq<(u8, u8, u8)>, data: Seq<u8>) -> Seq<u8> {
    Seq::new(data.len(), |k: int| px_ch(spec_lut_px(size, entries, px_at(data, k / 4)), k % 4))
}

/// A lattice coordinate stays within the lattice.
proof fn lemma_coord_bound(size: int, ch: u8)
    requires
        size >= 1,
    ensures
        0 <= spec_lattice_coord(size, ch) < size,
{
    assert((ch as int) * (size - 1) <= 255 * (size - 1) && (ch as int) * (size - 1) >= 0)
        by (nonlinear_arith)
        requires
            0 <= ch <= 255 && size >= 1,
    ;
    vstd::arithmetic::div_mod::lemma_div_is_ordered((ch as int) * (size - 1), 255 * (size - 1), 255);
    vstd::arithmetic::div_mod::lemma_fundamental_div_mod_converse_div(
        255 * (size - 1),
        255,
        size - 1,
        0,
    );
    assert(255 * (size - 1) == (size - 1) * 255 + 0) by (nonlinear_arith);
    vstd::arithmetic::div_mod::lemma_div_pos_is_pos((ch as int) * (size - 1), 255);
}

/// A lattice index stays within the entry list.
proof fn lemma_index_bound(size: int, r: int, g: int, b: int)
    requires
        size >= 1,
        0 <= r < size,
        0 <= g < size,
        0 <= b < size,
    ensures
        0 <= spec_lut_index(size, r, g, b) < size * size * size,
{
    assert(0 <= r + g * size + b * size * size < size * size * size) by (nonlinear_arith)
        requires
            size >= 1 && 0 <= r < size && 0 <= g < size && 0 <= b < size,
    ;
}

/// Map an 8-bit channel to its lattice coordinate.
fn lattice_coord(size: usize, ch: u8) -> (c: usize)
    requires
        1 <= size <= 2642245,
    ensures
        c == spec_lattice_coord(size as int, ch),
        c < size,
{
    proof {
        lemma_coord_bound(size as int, ch);
        assert((ch as int) * ((size - 1) as int) <= 255 * 2642244) by (nonlinear_arith)
            requires
                ch <= 255 && size >= 1 && size - 1 <= 2642244,
        ;
    }
    let p: u64 = (ch as u64) * ((size - 1) as u64);
    (p / 255) as usize
}

impl Lut3D {
    /// Flattened entry index of the lattice point (r, g, b): red varies
    /// fastest, then green, then blue.
    pub fn index(size: usize, r: usize, g: usize, b: usize) -> (idx: usize)
        requires
            size >= 1,
            r < size,
            g < size,
            b < size,
            (size as int) * (size as int) * (size as int) <= usize::MAX,
        ensures
            idx == spec_lut_index(size as int, r as int, g as int, b as int),
            idx < (size as int) * (size as int) * (size as int),
    {
        proof {
            lemma_index_bound(size as int, r as int, g as int, b as int);
            assert((g as int) * (size as int) >= 0 && (b as int) * (size as int) >= 0 && ((
            b as int) * (size as int)) * (size as int) >= 0 && (b as int) * (size as int) * (
            size as int) == ((b as int) * (size as int)) * (size as int) && (g as int) * (
            size as int) <= (size as int) * (size as int) * (size as int) && (b as int) * (
            size as int) <= (size as int) * (size as int) * (size as int) && ((b as int) * (
            size as int)) * (size as int) <= (size as int) * (size as int) * (size as int))
                by (nonlinear_arith)
                requires
                    size >= 1 && g < size && b < size,
            ;
        }
        r + g * size + (b * size) * size
    }

    /// Apply the LUT to an image with nearest-neighbor lookup; the alpha
    /// channel is preserved from the source pixel.
    pub fn apply_to_image(&self, img: &ImageBuf) -> (out: ImageBuf)
        requires
            self.wf(),
            self.size >= 1,
            img.wf(),
        ensures
            out.wf(),
            out.same_dims(*img),
            out.data@ == spec_lut_data(self.size as int, self.entries@, img.data@),
            forall|i: int|
                0 <= i < out.num_pixels() ==> out.spec_pixel(i) == spec_lut_px(
                    self.size as int,
                    self.entries@,
                    img.spec_pixel(i),
                ),
    {
        let el = self.entries.len();
        proof {
            if self.size > 2642245 {
                assert((self.size as int) * (self.size as int) * (self.size as int)
                    > 0xffff_ffff_ffff_ffffint) by (nonlinear_arith)
                    requires
                        self.size >= 2642246,
                ;
                assert(false);
            }
        }
        let size = self.size;
        let n = img.pixel_count();
        let dl = img.data.len();
        let mut out = ImageBuf::new(img.width(), img.height());
        let mut i: usize = 0;
        while i < n
            invariant
                img.wf(),
                self.wf(),
                out.wf(),
                out.width == img.width,
                out.height == img.height,
                n == img.num_pixels(),
                i <= n,
                size == self.size,
                1 <= size <= 2642245,
                el == self.entries@.len(),
                forall|j: int|
                    0 <= j < i ==> out.spec_pixel(j) == spec_lut_px(
                        self.size as int,
                        self.entries@,
                        img.spec_pixel(j),
                    ),
            decreases n - i,
        {
            let px = img.get_pixel(i);
            let ri = lattice_coord(size, px.0);
            let gi = lattice_coord(size, px.1);
            let bi = lattice_coord(size, px.2);
            let idx = Self::index(size, ri, gi, bi);
            let e = self.entries[idx];
            out.set_pixel(i, (e.0, e.1, e.2, px.3));
            i = i + 1;
        }
        proof {
            lemma_wf_len_facts(*img);
            let f = (|px: (u8, u8, u8, u8)|
                spec_lut_px(self.size as int, self.entries@, px));
            assert forall|j: int| 0 <= j < img.data@.len() / 4 implies px_at(out.data@, j) == f(
                px_at(img.data@, j),
            ) by {
                assert(out.spec_pixel(j) == spec_lut_px(
                    self.size as int,
                    self.entries@,
                    img.spec_pixel(j),
                ));
            }
            lemma_px_to_bytes(out.data@, img.data@, f);
            assert forall|k: int| 0 <= k < out.data@.len() implies out.data@[k] == spec_lut_data(
                self.size as int,
                self.entries@,
                img.data@,
            )[k] by {
                assert(f(px_at(img.data@, k / 4)) == spec_lut_px(
                    self.size as int,
                    self.entries@,
                    px_at(img.data@, k / 4),
                ));
            }
            assert(out.data@ =~= spec_lut_data(self.size as int, self.entries@, img.data@));
        }
        out
    }
}

/// An identity lattice: the entry at (r, g, b) holds exactly the channel
/// values that map to those coordinates, `i * 255 / (size-1)` per axis.
pub open spec fn is_identity_lut(size: int, entries: Seq<(u8, u8, u8)>) -> bool {
    entries.len() == size * size * size && (forall|r: int, g: int, b: int|
        0 <= r < size && 0 <= g < size && 0 <= b < size ==> #[trigger] entries[spec_lut_index(
            size,
            r,
            g,
            b,
        )] == (((r * 255 / (size - 1)) as u8), ((g * 255 / (size - 1)) as u8), ((b * 255 / (size
            - 1)) as u8)))
}

/// A channel value that sits exactly on a lattice point of a `size` lattice.
pub open spec fn lattice_aligned(size: int, ch: u8) -> bool {
    ch * (size - 1) % 255 == 0
}

/// An identity LUT reproduces the color channels exactly under
/// nearest-neighbor sampling at lattice-aligned coordinates; alpha is kept.
pub proof fn lemma_identity_lut_round_trip(
    size: int,
    entries: Seq<(u8, u8, u8)>,
    px: (u8, u8, u8, u8),
)
    requires
        size >= 2,
        is_identity_lut(size, entries),
        lattice_aligned(size, px.0),
        lattice_aligned(size, px.1),
        lattice_aligned(size, px.2),
    ensures
        spec_lut_px(size, entries, px) == px,
{
    lemma_aligned_coord_inverse(size, px.0);
    lemma_aligned_coord_inverse(size, px.1);
    lemma_aligned_coord_inverse(size, px.2);
    lemma_coord_bound(size, px.0);
    lemma_coord_bound(size, px.1);
    lemma_coord_bound(size, px.2);
    let r = spec_lattice_coord(size, px.0);
    let g = spec_lattice_coord(size, px.1);
    let b = spec_lattice_coord(size, px.2);
    assert(entries[spec_lut_index(size, r, g, b)] == (((r * 255 / (size - 1)) as u8), ((g * 255 / (
    size - 1)) as u8), ((b * 255 / (size - 1)) as u8)));
}

/// At an aligned channel, the lattice coordinate maps back to the channel.
proof fn lemma_aligned_coord_inverse(size: int, ch: u8)
    requires
        size >= 2,
        lattice_aligned(size, ch),
    ensures
        spec_lattice_coord(size, ch) * 255 / (size - 1) == ch,
{
    let q = spec_lattice_coord(size, ch);
    vstd::arithmetic::div_mod::lemma_fundamental_div_mod((ch as int) * (size - 1), 255);
    assert((ch as int) * (size - 1) == 255 * q);
    assert(q * 255 == (ch as int) * (size - 1)) by (nonlinear_arith)
        requires
            (ch as int) * (size - 1) == 255 * q,
    ;
    assert(q * 255 == (ch as int) * (size - 1) + 0);
    vstd::arithmetic::div_mod::lemma_fundamental_div_mod_converse_div(
        q * 255,
        size - 1,
        ch as int,
        0,
    );
}

} // verus!
