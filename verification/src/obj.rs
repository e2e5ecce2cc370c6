//! The asset format: a text where a line starting `v` declares a vertex
//! by three decimal coordinates, `vt` a texture coordinate by two, and
//! `f` a triangular face by 1-based indices into the vertex list, each
//! optionally followed by `/` and a texture-coordinate index.  All other
//! lines are ignored.  A malformed number, a missing token, or an
//! out-of-range index is a fatal load error.
//!
//! Coordinates are parsed into fixed-point raw values exactly: the
//! decimal fraction is floored to the next representable step.

use vstd::prelude::*;
use crate::fixed::COORD_MAX;
use crate::mesh::{Mesh, Polygon};
use crate::tex::{TriangleTex, VecTex};
use crate::vec3::{Triangle, Vec3};

verus! {

/// Why loading an asset failed.
#[derive(Copy, Clone, Debug, PartialEq, Eq, Structural)]
pub enum ObjError {
    /// A coordinate or index token is not a decimal number this format
    /// accepts, or is too large to represent.
    MalformedNumber,
    /// A declaration line ends before all its tokens.
    MissingToken,
    /// A face refers to a vertex or texture coordinate that was never
    /// declared.
    IndexOutOfRange,
}

/// An ASCII decimal digit.
pub open spec fn is_digit(b: u8) -> bool {
    48 <= b <= 57
}

/// Every byte is a decimal digit.
pub open spec fn all_digits(s: Seq<u8>) -> bool {
    forall|i: int| 0 <= i < s.len() ==> is_digit(#[trigger] s[i])
}

/// The value of a digit string, most significant digit first.
pub open spec fn dec_val(s: Seq<u8>) -> int
    decreases s.len(),
{
    if s.len() == 0 {
        0
    } else {
        dec_val(s.drop_last()) * 10 + (s.last() - 48)
    }
}

/// Ten to the power `k`.
pub open spec fn pow10(k: nat) -> int
    decreases k,
{
    if k == 0 {
        1
    } else {
        10 * pow10((k - 1) as nat)
    }
}

/// The index of the first occurrence of `b` in `s`, or `-1`.
pub open spec fn find_idx(s: Seq<u8>, b: u8) -> int
    decreases s.len(),
{
    if s.len() == 0 {
        -1
    } else if s[0] == b {
        0
    } else {
        let r = find_idx(s.drop_first(), b);
        if r < 0 {
            -1
        } else {
            r + 1
        }
    }
}

/// The token without its sign byte.
pub open spec fn token_body(s: Seq<u8>) -> Seq<u8> {
    if s.len() > 0 && (s[0] == 45 || s[0] == 43) {
        s.drop_first()
    } else {
        s
    }
}

/// The digits before the decimal point (the whole body if there is
/// none).
pub open spec fn token_ip(s: Seq<u8>) -> Seq<u8> {
    let body = token_body(s);
    let d = find_idx(body, 46);
    if d < 0 {
        body
    } else {
        body.take(d)
    }
}

/// The digits after the decimal point (empty if there is none).
pub open spec fn token_fp(s: Seq<u8>) -> Seq<u8> {
    let body = token_body(s);
    let d = find_idx(body, 46);
    if d < 0 {
        Seq::<u8>::empty()
    } else {
        body.skip(d + 1)
    }
}

/// The exact value of a fixed-point coordinate token: an optional sign,
/// then decimal digits with at most one point and at least one digit,
/// at most fifteen digits on either side, the value within the world
/// coordinate bound.  Anything else is rejected.
pub open spec fn fixed_token_val(s: Seq<u8>) -> Option<int> {
    let neg = s.len() > 0 && s[0] == 45;
    let ip = token_ip(s);
    let fp = token_fp(s);
    if all_digits(ip) && all_digits(fp) && ip.len() + fp.len() >= 1 && ip.len() <= 15 && fp.len()
        <= 15 {
        let mag = dec_val(ip) * 65536 + (dec_val(fp) * 65536) / pow10(fp.len());
        if mag <= COORD_MAX {
            if neg {
                Some(-mag)
            } else {
                Some(mag)
            }
        } else {
            None
        }
    } else {
        None
    }
}

/// The exact value of an index token: one to nine decimal digits.
pub open spec fn uint_token_val(s: Seq<u8>) -> Option<int> {
    if all_digits(s) && 1 <= s.len() <= 9 {
        Some(dec_val(s))
    } else {
        None
    }
}

/// The index of the first occurrence of `b` at or after `start`, or the
/// length of `s`.
pub open spec fn first_sep(s: Seq<u8>, start: int, b: u8) -> int {
    let r = find_idx(s.skip(start), b);
    if r < 0 {
        s.len() as int
    } else {
        start + r
    }
}

/// A line with a trailing carriage return stripped.
pub open spec fn strip_cr(line: Seq<u8>) -> Seq<u8> {
    if line.len() > 0 && line.last() == 13 {
        line.drop_last()
    } else {
        line
    }
}

/// The lines of the text: the pieces between newline bytes, each with a
/// trailing carriage return stripped; the final line needs no newline.
pub open spec fn obj_lines(data: Seq<u8>) -> Seq<Seq<u8>>
    decreases data.len(),
{
    if data.len() == 0 {
        Seq::<Seq<u8>>::empty()
    } else {
        let nl = find_idx(data, 10);
        if 0 <= nl < data.len() {
            seq![strip_cr(data.take(nl))] + obj_lines(data.skip(nl + 1))
        } else {
            seq![strip_cr(data)]
        }
    }
}

/// The coordinate token after position `after`: its value and the
/// position past it.
pub open spec fn next_fixed_spec(line: Seq<u8>, after: int) -> Result<(int, int), ObjError> {
    if after >= line.len() {
        Err(ObjError::MissingToken)
    } else {
        let start = after + 1;
        let end = first_sep(line, start, 32);
        match fixed_token_val(line.subrange(start, end)) {
            Some(v) => Ok((v, end)),
            None => Err(ObjError::MalformedNumber),
        }
    }
}

/// The face-corner token after position `after`: a vertex index, an
/// optional texture-coordinate index, and the position past the token.
pub open spec fn next_corner_spec(line: Seq<u8>, after: int) -> Result<
    (int, Option<int>, int),
    ObjError,
> {
    if after >= line.len() {
        Err(ObjError::MissingToken)
    } else {
        let start = after + 1;
        let end = first_sep(line, start, 32);
        let slash = first_sep(line, start, 47);
        let vend = if slash < end {
            slash
        } else {
            end
        };
        match uint_token_val(line.subrange(start, vend)) {
            Some(v) => if slash < end {
                match uint_token_val(line.subrange(slash + 1, end)) {
                    Some(t) => Ok((v, Some(t), end)),
                    None => Err(ObjError::MalformedNumber),
                }
            } else {
                Ok((v, None, end))
            },
            None => Err(ObjError::MalformedNumber),
        }
    }
}

/// What one line contributes: the extended vertex, texture-coordinate,
/// and polygon lists, or the first error the line raises.
pub open spec fn parse_line_spec(
    line: Seq<u8>,
    vs: Seq<Vec3>,
    ts: Seq<VecTex>,
    ps: Seq<Polygon>,
) -> Result<(Seq<Vec3>, Seq<VecTex>, Seq<Polygon>), ObjError> {
    let e0 = first_sep(line, 0, 32);
    if e0 == 1 && line[0] == 118 {
        match next_fixed_spec(line, e0) {
            Ok((x, e1)) => match next_fixed_spec(line, e1) {
                Ok((y, e2)) => match next_fixed_spec(line, e2) {
                    Ok((z, _e3)) => Ok(
                        (vs.push(Vec3 { x: x as i64, y: y as i64, z: z as i64 }), ts, ps),
                    ),
                    Err(e) => Err(e),
                },
                Err(e) => Err(e),
            },
            Err(e) => Err(e),
        }
    } else if e0 == 2 && line[0] == 118 && line[1] == 116 {
        match next_fixed_spec(line, e0) {
            Ok((x, e1)) => match next_fixed_spec(line, e1) {
                Ok((y, _e2)) => Ok((vs, ts.push(VecTex { x: x as i64, y: y as i64 }), ps)),
                Err(e) => Err(e),
            },
            Err(e) => Err(e),
        }
    } else if e0 == 1 && line[0] == 102 {
        match next_corner_spec(line, e0) {
            Ok((a, at, e1)) => match next_corner_spec(line, e1) {
                Ok((b, bt, e2)) => match next_corner_spec(line, e2) {
                    Ok((c, ct, _e3)) => if a < 1 || a > vs.len() || b < 1 || b > vs.len() || c < 1
                        || c > vs.len() {
                        Err(ObjError::IndexOutOfRange)
                    } else {
                        let triangle = Triangle { a: vs[a - 1], b: vs[b - 1], c: vs[c - 1] };
                        match at {
                            Some(ai) => match bt {
                                Some(bi) => match ct {
                                    Some(ci) => if ai < 1 || ai > ts.len() || bi < 1 || bi
                                        > ts.len() || ci < 1 || ci > ts.len() {
                                        Err(ObjError::IndexOutOfRange)
                                    } else {
                                        Ok(
                                            (
                                                vs,
                                                ts,
                                                ps.push(
                                                    Polygon {
                                                        triangle,
                                                        triangle_tex: TriangleTex {
                                                            a: ts[ai - 1],
                                                            b: ts[bi - 1],
                                                            c: ts[ci - 1],
                                                        },
                                                        color: 0xffffffff,
                                                        fill: true,
                                                    },
                                                ),
                                            ),
                                        )
                                    },
                                    None => Err(ObjError::MissingToken),
                                },
                                None => Err(ObjError::MissingToken),
                            },
                            None => Ok(
                                (
                                    vs,
                                    ts,
                                    ps.push(
                                        Polygon {
                                            triangle,
                                            triangle_tex: TriangleTex {
                                                a: VecTex { x: 0, y: 0 },
                                                b: VecTex { x: 0, y: 0 },
                                                c: VecTex { x: 0, y: 0 },
                                            },
                                            color: 0xffffffff,
                                            fill: true,
                                        },
                                    ),
                                ),
                            ),
                        }
                    },
                    Err(e) => Err(e),
                },
                Err(e) => Err(e),
            },
            Err(e) => Err(e),
        }
    } else {
        Ok((vs, ts, ps))
    }
}

/// The fold of `parse_line_spec` over a list of lines, from the given
/// starting lists; the polygons of the mesh, or the first error.
pub open spec fn parse_obj_from(
    lines: Seq<Seq<u8>>,
    vs: Seq<Vec3>,
    ts: Seq<VecTex>,
    ps: Seq<Polygon>,
) -> Result<Seq<Polygon>, ObjError>
    decreases lines.len(),
{
    if lines.len() == 0 {
        Ok(ps)
    } else {
        match parse_line_spec(lines[0], vs, ts, ps) {
            Ok((vs2, ts2, ps2)) => parse_obj_from(lines.drop_first(), vs2, ts2, ps2),
            Err(e) => Err(e),
        }
    }
}

/// The polygons the whole text denotes, or the first error: the fold of
/// the per-line step over the text's lines, starting from empty lists.
pub open spec fn parse_obj_spec(data: Seq<u8>) -> Result<Seq<Polygon>, ObjError> {
    parse_obj_from(
        obj_lines(data),
        Seq::<Vec3>::empty(),
        Seq::<VecTex>::empty(),
        Seq::<Polygon>::empty(),
    )
}

/// The concrete powers of ten the parser relies on.
proof fn lemma_pow10_vals()
    ensures
        pow10(9) == 1000000000,
        pow10(15) == 1000000000000000,
{
    assert(pow10(0) == 1);
    assert(pow10(1) == 10);
    assert(pow10(2) == 100);
    assert(pow10(3) == 1000);
    assert(pow10(4) == 10000);
    assert(pow10(5) == 100000);
    assert(pow10(6) == 1000000);
    assert(pow10(7) == 10000000);
    assert(pow10(8) == 100000000);
    assert(pow10(9) == 1000000000);
    assert(pow10(10) == 10000000000);
    assert(pow10(11) == 100000000000);
    assert(pow10(12) == 1000000000000);
    assert(pow10(13) == 10000000000000);
    assert(pow10(14) == 100000000000000);
    assert(pow10(15) == 1000000000000000);
}

/// Powers of ten grow with the exponent.
proof fn lemma_pow10_increases(j: nat, k: nat)
    requires
        j <= k,
    ensures
        1 <= pow10(j) <= pow10(k),
    decreases k,
{
    if k > 0 {
        if j == k {
            lemma_pow10_increases(0, (k - 1) as nat);
            assert(pow10(k) == 10 * pow10((k - 1) as nat));
        } else {
            lemma_pow10_increases(j, (k - 1) as nat);
            assert(pow10(k) == 10 * pow10((k - 1) as nat));
        }
    }
}

/// If no byte before `i` matches and the byte at `i` does (or the string
/// ends there), the first occurrence is at `i` (or nowhere).
proof fn lemma_find_idx_at(s: Seq<u8>, b: u8, i: int)
    requires
        0 <= i <= s.len(),
        forall|j: int| 0 <= j < i ==> s[j] != b,
        i < s.len() ==> s[i] == b,
    ensures
        find_idx(s, b) == if i == s.len() {
            -1
        } else {
            i
        },
    decreases s.len(),
{
    if s.len() > 0 {
        if i == 0 {
        } else {
            assert(s[0] != b);
            assert(forall|j: int| 0 <= j < i - 1 ==> s.drop_first()[j] == #[trigger] s[j + 1]);
            assert(i - 1 < s.drop_first().len() ==> s.drop_first()[i - 1] == s[i]);
            lemma_find_idx_at(s.drop_first(), b, i - 1);
        }
    }
}

/// The first index at or after `start` holding `sep`, or the length.
fn find_from(data: &Vec<u8>, start: usize, sep: u8) -> (r: usize)
    requires
        start <= data.len(),
    ensures
        start <= r <= data.len(),
        forall|j: int| start <= j < r ==> data@[j] != sep,
        r < data.len() ==> data@[r as int] == sep,
        r == first_sep(data@, start as int, sep),
{
    let mut i: usize = start;
    while i < data.len() && data[i] != sep
        invariant
            start <= i <= data.len(),
            forall|j: int| start <= j < i ==> data@[j] != sep,
        decreases data.len() - i,
    {
        i = i + 1;
    }
    proof {
        let rest = data@.skip(start as int);
        assert(forall|j: int| 0 <= j < rest.len() ==> #[trigger] rest[j] == data@[j + start]);
        lemma_find_idx_at(rest, sep, i - start);
    }
    i
}

/// A copy of `data[start..end]`.
fn subrange_vec(data: &Vec<u8>, start: usize, end: usize) -> (r: Vec<u8>)
    requires
        start <= end <= data.len(),
    ensures
        r@ == data@.subrange(start as int, end as int),
{
    let mut r: Vec<u8> = Vec::new();
    let mut i: usize = start;
    while i < end
        invariant
            start <= i <= end <= data.len(),
            r@ == data@.subrange(start as int, i as int),
        decreases end - i,
    {
        let b = data[i];
        r.push(b);
        proof {
            assert(r@ =~= data@.subrange(start as int, i + 1));
        }
        i = i + 1;
    }
    r
}

/// Ten to the power `k`, for small `k`.
fn pow10_exec(k: usize) -> (r: i64)
    requires
        k <= 15,
    ensures
        r == pow10(k as nat),
        1 <= r <= 1000000000000000,
{
    let mut p: i64 = 1;
    let mut j: usize = 0;
    while j < k
        invariant
            j <= k <= 15,
            p == pow10(j as nat),
            1 <= p,
        decreases k - j,
    {
        proof {
            lemma_pow10_increases(j as nat + 1, 15);
            lemma_pow10_vals();
        }
        p = p * 10;
        j = j + 1;
    }
    proof {
        lemma_pow10_increases(k as nat, 15);
        lemma_pow10_vals();
    }
    p
}

/// Parses a fixed-point coordinate token, exactly as `fixed_token_val`
/// describes.
pub fn parse_fixed(tok: &Vec<u8>) -> (r: Option<i64>)
    ensures
        r is Some <==> fixed_token_val(tok@) is Some,
        r is Some ==> r->0 == fixed_token_val(tok@)->0 && -COORD_MAX <= r->0 <= COORD_MAX,
{
    let n = tok.len();
    let signed: bool = n > 0 && (tok[0] == 45 || tok[0] == 43);
    let neg: bool = n > 0 && tok[0] == 45;
    let start: usize = if signed {
        1
    } else {
        0
    };
    let ghost body = token_body(tok@);
    proof {
        assert(body.len() == n - start);
        assert(forall|j: int| 0 <= j < body.len() ==> #[trigger] body[j] == tok@[j + start]);
    }
    let dot: usize = find_from(tok, start, 46);
    proof {
        lemma_find_idx_at(body, 46, dot - start);
    }
    let ghost d = find_idx(body, 46);
    let ghost ip_s = token_ip(tok@);
    let ghost fp_s = token_fp(tok@);
    proof {
        assert(ip_s.len() == dot - start);
        assert(forall|j: int| 0 <= j < ip_s.len() ==> #[trigger] ip_s[j] == tok@[j + start]);
        if d >= 0 {
            assert(forall|j: int|
                0 <= j < fp_s.len() ==> #[trigger] fp_s[j] == tok@[j + dot + 1]);
        }
    }
    // integer part digits
    let mut ip: i64 = 0;
    let mut j: usize = start;
    while j < dot
        invariant
            start <= j <= dot <= n,
            n == tok.len(),
            j - start <= 15,
            ip_s == token_ip(tok@),
            ip_s.len() == dot - start,
            forall|q: int| 0 <= q < ip_s.len() ==> #[trigger] ip_s[q] == tok@[q + start],
            forall|q: int| 0 <= q < j - start ==> is_digit(#[trigger] ip_s[q]),
            ip == dec_val(ip_s.take(j - start)),
            0 <= ip < pow10((j - start) as nat),
        decreases dot - j,
    {
        let b = tok[j];
        proof {
            assert(ip_s[j - start] == tok@[j as int]);
        }
        if !(48 <= b && b <= 57) {
            proof {
                assert(!is_digit(ip_s[j - start]));
                assert(!all_digits(ip_s));
            }
            return None;
        }
        if j - start >= 15 {
            proof {
                assert(ip_s.len() > 15);
            }
            return None;
        }
        proof {
            assert(ip_s.take(j - start + 1).drop_last() =~= ip_s.take(j - start));
            assert(ip_s.take(j - start + 1).last() == ip_s[j - start]);
            lemma_pow10_increases((j - start + 1) as nat, 15);
            lemma_pow10_vals();
            assert(dec_val(ip_s.take(j - start)) * 10 + (b - 48) < pow10((j - start) as nat) * 10)
                by (nonlinear_arith)
                requires
                    dec_val(ip_s.take(j - start)) < pow10((j - start) as nat),
                    b <= 57,
                    48 <= b,
            ;
            assert(pow10((j - start + 1) as nat) == 10 * pow10((j - start) as nat));
            assert(pow10((j - start) as nat) * 10 == 10 * pow10((j - start) as nat))
                by (nonlinear_arith);
            assert(0 <= dec_val(ip_s.take(j - start)) * 10) by (nonlinear_arith)
                requires
                    0 <= dec_val(ip_s.take(j - start)),
            ;
        }
        ip = ip * 10 + ((b - 48) as i64);
        j = j + 1;
    }
    proof {
        assert(ip_s.take(ip_s.len() as int) =~= ip_s);
        assert(forall|q: int| 0 <= q < ip_s.len() ==> is_digit(#[trigger] ip_s[q]));
        assert(all_digits(ip_s));
    }
    // fractional part digits
    let mut fv: i64 = 0;
    let mut k: usize = 0;
    if dot < n {
        let fstart = dot + 1;
        let mut j2: usize = fstart;
        while j2 < n
            invariant
                dot < n,
                fstart == dot + 1,
                fstart <= j2 <= n,
                n == tok.len(),
                d >= 0,
                j2 - fstart <= 15,
                fp_s.len() == n - fstart,
                fp_s == token_fp(tok@),
                ip_s == token_ip(tok@),
                all_digits(ip_s),
                ip_s.len() <= 15,
                ip == dec_val(ip_s),
                0 <= ip < pow10(ip_s.len()),
                neg == (tok@.len() > 0 && tok@[0] == 45),
                forall|q: int| 0 <= q < fp_s.len() ==> #[trigger] fp_s[q] == tok@[q + fstart],
                forall|q: int| 0 <= q < k ==> is_digit(#[trigger] fp_s[q]),
                k == j2 - fstart,
                fv == dec_val(fp_s.take(k as int)),
                0 <= fv < pow10(k as nat),
            decreases n - j2,
        {
            let b = tok[j2];
            proof {
                assert(fp_s[j2 - fstart] == tok@[j2 as int]);
            }
            if !(48 <= b && b <= 57) {
                proof {
                    assert(!is_digit(fp_s[j2 - fstart]));
                    assert(!all_digits(fp_s));
                }
                return None;
            }
            if k >= 15 {
                proof {
                    assert(fp_s.len() > 15);
                }
                return None;
            }
            proof {
                assert(fp_s.take(k + 1).drop_last() =~= fp_s.take(k as int));
                assert(fp_s.take(k + 1).last() == fp_s[k as int]);
                lemma_pow10_increases((k + 1) as nat, 15);
                lemma_pow10_vals();
                assert(dec_val(fp_s.take(k as int)) * 10 + (b - 48) < pow10(k as nat) * 10)
                    by (nonlinear_arith)
                    requires
                        dec_val(fp_s.take(k as int)) < pow10(k as nat),
                        b <= 57,
                        48 <= b,
                ;
                assert(pow10((k + 1) as nat) == 10 * pow10(k as nat));
                assert(pow10(k as nat) * 10 == 10 * pow10(k as nat)) by (nonlinear_arith);
                assert(0 <= dec_val(fp_s.take(k as int)) * 10) by (nonlinear_arith)
                    requires
                        0 <= dec_val(fp_s.take(k as int)),
                ;
            }
            fv = fv * 10 + ((b - 48) as i64);
            k = k + 1;
            j2 = j2 + 1;
        }
        proof {
            assert(fp_s.take(fp_s.len() as int) =~= fp_s);
            assert(forall|q: int| 0 <= q < fp_s.len() ==> is_digit(#[trigger] fp_s[q]));
            assert(all_digits(fp_s));
        }
    } else {
        proof {
            assert(d < 0);
            assert(fp_s =~= Seq::<u8>::empty());
        }
    }
    if dot == start && k == 0 {
        proof {
            assert(ip_s.len() + fp_s.len() == 0);
        }
        return None;
    }
    let p10: i64 = pow10_exec(k);
    let fscaled: i128 = (fv as i128) * 65536 / (p10 as i128);
    let mag: i128 = (ip as i128) * 65536 + fscaled;
    proof {
        lemma_pow10_vals();
        lemma_pow10_increases(ip_s.len(), 15);
        lemma_pow10_increases(fp_s.len(), 15);
        assert(0 <= ip <= 0x38d7ea4c68000 && 0 <= fv <= 0x38d7ea4c68000);
        assert(0 <= (fv as i128) * 65536 <= 0x38d7ea4c68000 * 65536) by (nonlinear_arith)
            requires
                0 <= fv <= 0x38d7ea4c68000,
        ;
        assert(0 <= (ip as i128) * 65536 <= 0x38d7ea4c68000 * 65536) by (nonlinear_arith)
            requires
                0 <= ip <= 0x38d7ea4c68000,
        ;
        crate::fixed::lemma_div_bound((fv as i128) * 65536, p10 as int);
        assert(ip_s.len() <= 15 && fp_s.len() <= 15);
        assert(ip == dec_val(ip_s) && fv == dec_val(fp_s) && p10 == pow10(fp_s.len()));
    }
    if mag > COORD_MAX as i128 {
        return None;
    }
    if neg {
        Some(-(mag as i64))
    } else {
        Some(mag as i64)
    }
}

/// Parses an index token, exactly as `uint_token_val` describes.
pub fn parse_uint(tok: &Vec<u8>) -> (r: Option<usize>)
    ensures
        r is Some <==> uint_token_val(tok@) is Some,
        r is Some ==> r->0 == uint_token_val(tok@)->0 && r->0 < 1000000000,
{
    let n = tok.len();
    if n == 0 || n > 9 {
        return None;
    }
    let mut val: i64 = 0;
    let mut j: usize = 0;
    while j < n
        invariant
            j <= n <= 9,
            n == tok.len(),
            forall|q: int| 0 <= q < j ==> is_digit(#[trigger] tok@[q]),
            val == dec_val(tok@.take(j as int)),
            0 <= val < pow10(j as nat),
        decreases n - j,
    {
        let b = tok[j];
        if !(48 <= b && b <= 57) {
            proof {
                assert(!all_digits(tok@));
            }
            return None;
        }
        proof {
            assert(tok@.take(j + 1).drop_last() =~= tok@.take(j as int));
            assert(tok@.take(j + 1).last() == tok@[j as int]);
            lemma_pow10_increases((j + 1) as nat, 9);
            lemma_pow10_vals();
            assert(dec_val(tok@.take(j as int)) * 10 + (b - 48) < pow10(j as nat) * 10)
                by (nonlinear_arith)
                requires
                    dec_val(tok@.take(j as int)) < pow10(j as nat),
                    b <= 57,
                    48 <= b,
            ;
            assert(pow10((j + 1) as nat) == 10 * pow10(j as nat));
            assert(pow10(j as nat) * 10 == 10 * pow10(j as nat)) by (nonlinear_arith);
            assert(0 <= dec_val(tok@.take(j as int)) * 10) by (nonlinear_arith)
                requires
                    0 <= dec_val(tok@.take(j as int)),
            ;
        }
        val = val * 10 + ((b - 48) as i64);
        j = j + 1;
    }
    proof {
        assert(tok@.take(n as int) =~= tok@);
        lemma_pow10_increases(n as nat, 9);
        lemma_pow10_vals();
    }
    Some(val as usize)
}

/// A mesh the loader may return: no texture image, every polygon filled,
/// coloured opaque white, with all coordinates within the world bound.
pub open spec fn loaded_mesh_ok(m: Mesh) -> bool {
    &&& m.texture is None
    &&& forall|i: int|
        0 <= i < m.polygon_list.len() ==> {
            &&& (#[trigger] m.polygon_list[i]).fill == true
            &&& m.polygon_list[i].color == 0xffffffffu32
            &&& m.polygon_list[i].triangle.a.bounded(COORD_MAX as int)
            &&& m.polygon_list[i].triangle.b.bounded(COORD_MAX as int)
            &&& m.polygon_list[i].triangle.c.bounded(COORD_MAX as int)
        }
}

impl Mesh {
    /// Builds a mesh from the text of an asset file, one polygon per
    /// face line.  Fails on the first malformed number, missing token,
    /// or out-of-range index.
    #[verifier::rlimit(100)]
    pub fn from_object_text(data: &Vec<u8>) -> (r: Result<Mesh, ObjError>)
        ensures
            r is Ok <==> parse_obj_spec(data@) is Ok,
            r is Ok ==> r->Ok_0.polygon_list@ == parse_obj_spec(data@)->Ok_0,
            r is Ok ==> r->Ok_0.texture is None,
            r is Err ==> r->Err_0 == parse_obj_spec(data@)->Err_0,
            r is Ok ==> loaded_mesh_ok(r->Ok_0),
            r is Ok ==> r->Ok_0.bounded(COORD_MAX as int),
    {
        let mut verts: Vec<Vec3> = Vec::new();
        let mut texcoords: Vec<VecTex> = Vec::new();
        let mut polys: Vec<Polygon> = Vec::new();
        let mut pos: usize = 0;
        proof {
            assert(verts@ =~= Seq::<Vec3>::empty());
            assert(texcoords@ =~= Seq::<VecTex>::empty());
            assert(polys@ =~= Seq::<Polygon>::empty());
            assert(data@.skip(0) =~= data@);
        }
        while pos < data.len()
            invariant
                pos <= data.len(),
                parse_obj_spec(data@) == parse_obj_from(
                    obj_lines(data@.skip(pos as int)),
                    verts@,
                    texcoords@,
                    polys@,
                ),
                forall|i: int|
                    0 <= i < verts.len() ==> (#[trigger] verts@[i]).bounded(COORD_MAX as int),
                forall|i: int|
                    0 <= i < polys.len() ==> {
                        &&& (#[trigger] polys@[i]).fill == true
                        &&& polys@[i].color == 0xffffffffu32
                        &&& polys@[i].triangle.a.bounded(COORD_MAX as int)
                        &&& polys@[i].triangle.b.bounded(COORD_MAX as int)
                        &&& polys@[i].triangle.c.bounded(COORD_MAX as int)
                    },
            decreases data.len() - pos,
        {
            let nl = find_from(data, pos, 10);
            let mut lend = nl;
            if lend > pos && data[lend - 1] == 13 {
                lend = lend - 1;
            }
            let line = subrange_vec(data, pos, lend);
            let ghost rest = data@.skip(pos as int);
            let ghost next_pos: int = if nl < data.len() {
                nl + 1
            } else {
                data.len() as int
            };
            proof {
                assert(forall|j: int|
                    0 <= j < rest.len() ==> #[trigger] rest[j] == data@[j + pos]);
                lemma_find_idx_at(rest, 10, nl - pos);
                if nl < data.len() {
                    assert(rest.take(nl - pos) =~= data@.subrange(pos as int, nl as int));
                    assert(strip_cr(rest.take(nl - pos)) =~= line@);
                    assert(rest.skip(nl - pos + 1) =~= data@.skip(next_pos));
                    assert(obj_lines(rest) == seq![strip_cr(rest.take(nl - pos))] + obj_lines(
                        rest.skip(nl - pos + 1),
                    ));
                    assert(obj_lines(rest)[0] == line@);
                    assert(obj_lines(rest).drop_first() =~= obj_lines(data@.skip(next_pos)));
                } else {
                    assert(strip_cr(rest) =~= line@);
                    assert(obj_lines(rest) == seq![strip_cr(rest)]);
                    assert(obj_lines(rest)[0] == line@);
                    assert(data@.skip(next_pos).len() == 0);
                    assert(obj_lines(data@.skip(next_pos)) =~= Seq::<Seq<u8>>::empty());
                    assert(obj_lines(rest).drop_first() =~= obj_lines(data@.skip(next_pos)));
                }
            }
            match parse_line(&line, &mut verts, &mut texcoords, &mut polys) {
                Ok(()) => {},
                Err(e) => {
                    return Err(e);
                },
            }
            pos = if nl < data.len() {
                nl + 1
            } else {
                data.len()
            };
        }
        proof {
            assert(data@.skip(pos as int).len() == 0);
            assert(obj_lines(data@.skip(pos as int)) =~= Seq::<Seq<u8>>::empty());
        }
        Ok(Mesh { polygon_list: polys, texture: None })
    }
}

/// Handles one line of the asset text, extending the vertex, texture
/// coordinate, or polygon list as the line's first token directs.
fn parse_line(
    line: &Vec<u8>,
    verts: &mut Vec<Vec3>,
    texcoords: &mut Vec<VecTex>,
    polys: &mut Vec<Polygon>,
) -> (r: Result<(), ObjError>)
    requires
        forall|i: int|
            0 <= i < old(verts).len() ==> (#[trigger] old(verts)@[i]).bounded(COORD_MAX as int),
        forall|i: int|
            0 <= i < old(polys).len() ==> {
                &&& (#[trigger] old(polys)@[i]).fill == true
                &&& old(polys)@[i].color == 0xffffffffu32
                &&& old(polys)@[i].triangle.a.bounded(COORD_MAX as int)
                &&& old(polys)@[i].triangle.b.bounded(COORD_MAX as int)
                &&& old(polys)@[i].triangle.c.bounded(COORD_MAX as int)
            },
    ensures
        forall|i: int|
            0 <= i < final(verts).len() ==> (#[trigger] final(verts)@[i]).bounded(
                COORD_MAX as int,
            ),
        forall|i: int|
            0 <= i < final(polys).len() ==> {
                &&& (#[trigger] final(polys)@[i]).fill == true
                &&& final(polys)@[i].color == 0xffffffffu32
                &&& final(polys)@[i].triangle.a.bounded(COORD_MAX as int)
                &&& final(polys)@[i].triangle.b.bounded(COORD_MAX as int)
                &&& final(polys)@[i].triangle.c.bounded(COORD_MAX as int)
            },
        r is Ok <==> parse_line_spec(line@, old(verts)@, old(texcoords)@, old(polys)@) is Ok,
        r is Ok ==> {
            let s = parse_line_spec(line@, old(verts)@, old(texcoords)@, old(polys)@)->Ok_0;
            &&& final(verts)@ == s.0
            &&& final(texcoords)@ == s.1
            &&& final(polys)@ == s.2
        },
        r is Err ==> {
            &&& r->Err_0 == parse_line_spec(
                line@,
                old(verts)@,
                old(texcoords)@,
                old(polys)@,
            )->Err_0
            &&& final(verts)@ == old(verts)@
            &&& final(texcoords)@ == old(texcoords)@
            &&& final(polys)@ == old(polys)@
        },
{
    let e0 = find_from(line, 0, 32);
    if e0 == 1 && line[0] == 118 {
        // a vertex line: three coordinates
        let (x, e1) = next_fixed(line, e0)?;
        let (y, e2) = next_fixed(line, e1)?;
        let (z, _e3) = next_fixed(line, e2)?;
        verts.push(Vec3 { x, y, z });
        Ok(())
    } else if e0 == 2 && line[0] == 118 && line[1] == 116 {
        // a texture coordinate line: two coordinates
        let (x, e1) = next_fixed(line, e0)?;
        let (y, _e2) = next_fixed(line, e1)?;
        texcoords.push(VecTex { x, y });
        Ok(())
    } else if e0 == 1 && line[0] == 102 {
        // a face line: three corner tokens
        let (a, at, e1) = next_corner(line, e0)?;
        let (b, bt, e2) = next_corner(line, e1)?;
        let (c, ct, _e3) = next_corner(line, e2)?;
        if a == 0 || a > verts.len() || b == 0 || b > verts.len() || c == 0 || c > verts.len() {
            return Err(ObjError::IndexOutOfRange);
        }
        let triangle = Triangle { a: verts[a - 1], b: verts[b - 1], c: verts[c - 1] };
        let triangle_tex: TriangleTex = match at {
            Some(ai) => {
                let bi = match bt {
                    Some(v) => v,
                    None => {
                        return Err(ObjError::MissingToken);
                    },
                };
                let ci = match ct {
                    Some(v) => v,
                    None => {
                        return Err(ObjError::MissingToken);
                    },
                };
                if ai == 0 || ai > texcoords.len() || bi == 0 || bi > texcoords.len() || ci == 0
                    || ci > texcoords.len() {
                    return Err(ObjError::IndexOutOfRange);
                }
                TriangleTex {
                    a: texcoords[ai - 1],
                    b: texcoords[bi - 1],
                    c: texcoords[ci - 1],
                }
            },
            None => TriangleTex {
                a: VecTex { x: 0, y: 0 },
                b: VecTex { x: 0, y: 0 },
                c: VecTex { x: 0, y: 0 },
            },
        };
        polys.push(Polygon { triangle, triangle_tex, color: 0xffffffff, fill: true });
        Ok(())
    } else {
        Ok(())
    }
}

/// Reads the coordinate token that follows position `after` in the
/// line, returning its value and the position past the token.
fn next_fixed(line: &Vec<u8>, after: usize) -> (r: Result<(i64, usize), ObjError>)
    requires
        after <= line.len(),
    ensures
        r is Ok ==> -COORD_MAX <= r->Ok_0.0 <= COORD_MAX && after < r->Ok_0.1 <= line.len(),
        r is Ok <==> next_fixed_spec(line@, after as int) is Ok,
        r is Ok ==> r->Ok_0.0 == next_fixed_spec(line@, after as int)->Ok_0.0 && r->Ok_0.1
            == next_fixed_spec(line@, after as int)->Ok_0.1,
        r is Err ==> r->Err_0 == next_fixed_spec(line@, after as int)->Err_0,
{
    if after >= line.len() {
        return Err(ObjError::MissingToken);
    }
    let start = after + 1;
    let end = find_from(line, start, 32);
    let tok = subrange_vec(line, start, end);
    match parse_fixed(&tok) {
        Some(v) => Ok((v, end)),
        None => Err(ObjError::MalformedNumber),
    }
}

/// Reads the face-corner token that follows position `after`: a vertex
/// index, optionally followed by `/` and a texture-coordinate index.
fn next_corner(line: &Vec<u8>, after: usize) -> (r: Result<(usize, Option<usize>, usize), ObjError>)
    requires
        after <= line.len(),
    ensures
        r is Ok ==> after < r->Ok_0.2 <= line.len(),
        r is Ok <==> next_corner_spec(line@, after as int) is Ok,
        r is Ok ==> {
            let s = next_corner_spec(line@, after as int)->Ok_0;
            &&& r->Ok_0.0 == s.0
            &&& (r->Ok_0.1 is Some <==> s.1 is Some)
            &&& (r->Ok_0.1 is Some ==> r->Ok_0.1->0 == s.1->0)
            &&& r->Ok_0.2 == s.2
        },
        r is Err ==> r->Err_0 == next_corner_spec(line@, after as int)->Err_0,
{
    if after >= line.len() {
        return Err(ObjError::MissingToken);
    }
    let start = after + 1;
    let end = find_from(line, start, 32);
    let slash = find_from(line, start, 47);
    let vend = if slash < end {
        slash
    } else {
        end
    };
    let vtok = subrange_vec(line, start, vend);
    let v = match parse_uint(&vtok) {
        Some(v) => v,
        None => {
            return Err(ObjError::MalformedNumber);
        },
    };
    if slash < end {
        let ttok = subrange_vec(line, slash + 1, end);
        match parse_uint(&ttok) {
            Some(t) => Ok((v, Some(t), end)),
            None => Err(ObjError::MalformedNumber),
        }
    } else {
        Ok((v, None, end))
    }
}

} // verus!
