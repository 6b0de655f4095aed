//! Object layers: object groups, their objects, and the shapes attached to
//! them. The verified heart is the point-list parser, which scans the
//! `points` attribute of a polygon or polyline for `x,y` integer pairs.

use vstd::prelude::*;

use crate::TmxError;
use crate::color::Color;
use crate::properties::Properties;
use crate::text::{
    all_digit_chars, dec_val_chars, digits_prefix_len, int_sign_neg,
    int_text_value, is_digit_char, lemma_dec_val_chars_nonneg, lemma_dec_val_chars_push,
    lemma_digits_prefix, scan_digits, strip_sign,
};

verus! {

// ---------------------------------------------------------------------------
// Point-list scanning: every `x,y` pair of (optionally negated) digit runs,
// earliest match first, later matches starting after the previous one.
// ---------------------------------------------------------------------------

/// The length of a leading signed digit run (`-?` then digits); 0 when the
/// text does not start with one.
pub open spec fn signed_run_len(u: Seq<char>) -> int {
    if u.len() > 0 && u[0] == '-' {
        if digits_prefix_len(u.drop_first()) > 0 {
            1 + digits_prefix_len(u.drop_first())
        } else {
            0
        }
    } else {
        digits_prefix_len(u)
    }
}

/// The length of a leading coordinate pair `x,y`; 0 when there is none.
pub open spec fn pair_len(u: Seq<char>) -> int {
    let a = signed_run_len(u);
    if a > 0 && a < u.len() && u[a] == ',' {
        if signed_run_len(u.skip(a + 1)) > 0 {
            a + 1 + signed_run_len(u.skip(a + 1))
        } else {
            0
        }
    } else {
        0
    }
}

/// The first coordinate of the leading pair.
pub open spec fn pair_x(u: Seq<char>) -> int {
    int_text_value(u.take(signed_run_len(u)))
}

/// The second coordinate of the leading pair.
pub open spec fn pair_y(u: Seq<char>) -> int {
    let a = signed_run_len(u);
    int_text_value(u.skip(a + 1).take(signed_run_len(u.skip(a + 1))))
}

pub proof fn lemma_signed_run_len_bounds(u: Seq<char>)
    ensures
        0 <= signed_run_len(u) <= u.len(),
{
    lemma_digits_prefix(u);
    if u.len() > 0 && u[0] == '-' {
        lemma_digits_prefix(u.drop_first());
    }
}

pub proof fn lemma_pair_len_bounds(u: Seq<char>)
    ensures
        0 <= pair_len(u) <= u.len(),
{
    lemma_signed_run_len_bounds(u);
    let a = signed_run_len(u);
    if a > 0 && a < u.len() && u[a] == ',' {
        lemma_signed_run_len_bounds(u.skip(a + 1));
        assert(u.skip(a + 1).len() == u.len() - a - 1);
    }
}

/// Every coordinate pair in the text, in order: at each position the leading
/// pair is taken whole, and scanning resumes behind it; positions that start
/// no pair are skipped.
pub open spec fn points_spec(u: Seq<char>) -> Seq<(int, int)>
    decreases u.len(),
{
    if u.len() == 0 {
        Seq::empty()
    } else if pair_len(u) > 0 {
        proof {
            lemma_pair_len_bounds(u);
        }
        seq![(pair_x(u), pair_y(u))] + points_spec(u.skip(pair_len(u)))
    } else {
        points_spec(u.drop_first())
    }
}

/// Every scanned coordinate fits in a signed 32-bit integer.
pub open spec fn points_in_range(u: Seq<char>) -> bool {
    forall|j: int|
        0 <= j < points_spec(u).len() ==> {
            &&& i32::MIN <= (#[trigger] points_spec(u)[j]).0 <= i32::MAX
            &&& i32::MIN <= points_spec(u)[j].1 <= i32::MAX
        }
}

/// Scan the signed digit run at `from`: where it ends, its value if it fits
/// in an `i32`, and whether it does.
fn scan_signed_i32(s: &str, from: usize) -> (r: (usize, i32, bool))
    requires
        from <= s@.len(),
        s@.len() <= usize::MAX,
    ensures
        ({
            let u = s@.skip(from as int);
            let l = signed_run_len(u);
            &&& from <= r.0 <= s@.len()
            &&& r.0 - from == l
            &&& (l > 0 ==> r.2 == (i32::MIN <= int_text_value(u.take(l))
                && int_text_value(u.take(l)) <= i32::MAX))
            &&& (l > 0 && r.2 ==> r.1 as int == int_text_value(u.take(l)))
        }),
{
    let len = s.unicode_len();
    let ghost u = s@.skip(from as int);
    let neg = from < len && s.get_char(from) == '-';
    let dstart: usize = if neg {
        from + 1
    } else {
        from
    };
    proof {
        if neg {
            assert(u[0] == s@[from as int]);
            assert(u.drop_first() =~= s@.skip(from as int + 1));
        }
    }
    let dend = scan_digits(s, dstart);
    if dend == dstart {
        proof {
            lemma_digits_prefix(s@.skip(dstart as int));
            assert(signed_run_len(u) == 0);
        }
        return (from, 0, false);
    }
    let ghost l = signed_run_len(u);
    let ghost digs = s@.skip(dstart as int).take((dend - dstart) as int);
    proof {
        lemma_digits_prefix(s@.skip(dstart as int));
        assert(all_digit_chars(digs)) by {
            assert(forall|k: int|
                0 <= k < digs.len() ==> digs[k] == #[trigger] s@.skip(dstart as int)[k]);
        }
        assert(l == dend - from);
        assert(u.take(l).len() == l);
        if neg {
            assert(u.take(l)[0] == s@[from as int]);
            assert(int_sign_neg(u.take(l)));
            assert(strip_sign(u.take(l)) =~= digs);
        } else {
            assert(u.take(l)[0] == s@[from as int]);
            assert(digs.len() > 0 && is_digit_char(digs[0]));
            assert(u.take(l)[0] == digs[0]);
            assert(!int_sign_neg(u.take(l)));
            assert(strip_sign(u.take(l)) =~= digs);
        }
    }
    let mut mag: u64 = 0;
    let mut over: bool = false;
    let mut j: usize = dstart;
    while j < dend
        invariant
            dstart <= j <= dend <= s@.len(),
            digs == s@.skip(dstart as int).take((dend - dstart) as int),
            all_digit_chars(digs),
            digs.len() == dend - dstart,
            forall|k: int| 0 <= k < digs.len() ==> #[trigger] digs[k] == s@[dstart + k],
            over == (dec_val_chars(digs.take(j - dstart)) > 0x8000_0000),
            !over ==> mag as int == dec_val_chars(digs.take(j - dstart)),
            mag <= 0x8000_0000,
        decreases dend - j,
    {
        let c = s.get_char(j);
        proof {
            assert(digs[j - dstart as int] == s@[j as int]);
            assert(is_digit_char(c));
            lemma_dec_val_chars_push(digs, j - dstart as int);
            assert(all_digit_chars(digs.take(j - dstart as int))) by {
                assert(forall|k: int|
                    0 <= k < j - dstart ==> #[trigger] digs.take(j - dstart as int)[k] == digs[k]);
            }
            lemma_dec_val_chars_nonneg(digs.take(j - dstart as int));
        }
        let d = (c as u32 - 48) as u64;
        if !over {
            let m2 = mag * 10 + d;
            if m2 > 0x8000_0000 {
                over = true;
            } else {
                mag = m2;
            }
        }
        j = j + 1;
    }
    proof {
        assert(digs.take(digs.len() as int) =~= digs);
        lemma_dec_val_chars_nonneg(digs);
    }
    if neg {
        if over {
            (dend, 0, false)
        } else {
            (dend, (-(mag as i64)) as i32, true)
        }
    } else {
        if over || mag > 0x7FFF_FFFF {
            (dend, 0, false)
        } else {
            (dend, mag as i32, true)
        }
    }
}

/// Parse a `points` attribute: every `x,y` pair of integers, in document
/// order; a coordinate outside the signed 32-bit range is rejected.
pub fn parse_points(s: &str) -> (r: Result<Vec<(i32, i32)>, TmxError>)
    ensures
        match r {
            Ok(v) => points_in_range(s@) && v@.map_values(|p: (i32, i32)| (p.0 as int, p.1 as int))
                == points_spec(s@),
            Err(e) => e == TmxError::MalformedPoints && !points_in_range(s@),
        },
{
    let len = s.unicode_len();
    let mut out: Vec<(i32, i32)> = Vec::new();
    let ghost mut done: Seq<(int, int)> = Seq::empty();
    let mut i: usize = 0;
    proof {
        assert(s@.skip(0) =~= s@);
        assert(Seq::<(int, int)>::empty() + points_spec(s@) =~= points_spec(s@));
        assert(out@.map_values(|p: (i32, i32)| (p.0 as int, p.1 as int)) =~= done);
    }
    while i < len
        invariant
            0 <= i <= len,
            len == s@.len(),
            points_spec(s@) == done + points_spec(s@.skip(i as int)),
            done == out@.map_values(|p: (i32, i32)| (p.0 as int, p.1 as int)),
        decreases len - i,
    {
        let ghost u = s@.skip(i as int);
        let (e1, x, ok1) = scan_signed_i32(s, i);
        let ghost a = signed_run_len(u);
        let mut matched = false;
        if e1 > i && e1 < len && s.get_char(e1) == ',' {
            proof {
                assert(u[a] == s@[e1 as int]);
                assert(u.skip(a + 1) =~= s@.skip(e1 as int + 1));
            }
            let (e2, y, ok2) = scan_signed_i32(s, e1 + 1);
            let ghost b = signed_run_len(u.skip(a + 1));
            if e2 > e1 + 1 {
                matched = true;
                let ghost l = pair_len(u);
                proof {
                    assert(l == a + 1 + b);
                    assert(l > 0);
                    assert(points_spec(u) == seq![(pair_x(u), pair_y(u))] + points_spec(
                        u.skip(l),
                    ));
                    assert(u.take(a) =~= s@.skip(i as int).take(a));
                }
                if !ok1 || !ok2 {
                    proof {
                        let k = done.len() as int;
                        assert(points_spec(s@)[k] == points_spec(u)[0]);
                        assert(points_spec(u)[0] == (pair_x(u), pair_y(u)));
                        assert(!points_in_range(s@));
                    }
                    return Err(TmxError::MalformedPoints);
                }
                out.push((x, y));
                proof {
                    let ghost pre = done;
                    assert(pre + (seq![(pair_x(u), pair_y(u))] + points_spec(u.skip(l))) =~= pre
                        .push((pair_x(u), pair_y(u))) + points_spec(u.skip(l)));
                    done = done.push((pair_x(u), pair_y(u)));
                    assert(u.skip(l) =~= s@.skip(e2 as int));
                    assert(out@.map_values(|p: (i32, i32)| (p.0 as int, p.1 as int)) =~= done);
                }
                i = e2;
            }
        }
        if !matched {
            proof {
                assert(pair_len(u) == 0);
                assert(u.len() > 0);
                assert(u.drop_first() =~= s@.skip(i as int + 1));
                assert(points_spec(u) == points_spec(s@.skip(i as int + 1)));
            }
            i = i + 1;
        }
    }
    proof {
        assert(s@.skip(len as int) =~= Seq::<char>::empty());
        assert(done + points_spec(Seq::<char>::empty()) =~= done);
        assert(points_spec(s@) == done);
        assert(points_in_range(s@)) by {
            assert forall|j: int| 0 <= j < points_spec(s@).len() implies {
                &&& i32::MIN <= (#[trigger] points_spec(s@)[j]).0 <= i32::MAX
                &&& i32::MIN <= points_spec(s@)[j].1 <= i32::MAX
            } by {
                assert(done[j] == (out@[j].0 as int, out@[j].1 as int));
            }
        }
    }
    Ok(out)
}

// ---------------------------------------------------------------------------
// The object-layer data model.
// ---------------------------------------------------------------------------

/// The marker an object carries when it is an ellipse.
#[derive(Debug, Clone, Copy, PartialEq, Eq, Structural)]
pub struct Ellipse;

/// An open polyline: its vertices, in document order.
#[derive(Debug, Clone)]
pub struct Polyline {
    pub points: Vec<(i32, i32)>,
}

/// A closed polygon: its vertices, in document order.
#[derive(Debug, Clone)]
pub struct Polygon {
    pub points: Vec<(i32, i32)>,
}

/// One placed object. Coordinates and sizes hold the IEEE-754 bit patterns
/// of the document's single-precision values; the library carries them
/// through without interpreting them.
#[derive(Debug, Clone)]
pub struct Object {
    pub id: u32,
    pub name: Option<String>,
    pub type_: Option<String>,
    pub gid: Option<u32>,
    pub x: u32,
    pub y: u32,
    pub width: Option<u32>,
    pub height: Option<u32>,
    pub rotation: Option<u32>,
    pub properties: Option<Properties>,
    pub ellipse: Option<Ellipse>,
    pub polyline: Option<Polyline>,
    pub polygon: Option<Polygon>,
}

/// A group of objects, one rendering layer. Opacity and offsets hold
/// IEEE-754 single-precision bit patterns.
#[derive(Debug, Clone)]
pub struct Objectgroup {
    pub name: String,
    pub draworder: Option<String>,
    pub visible: Option<u8>,
    pub opacity: Option<u32>,
    pub offsetx: Option<u32>,
    pub offsety: Option<u32>,
    pub color: Option<Color>,
    pub properties: Option<Properties>,
    pub objects: Vec<Object>,
}

} // verus!
