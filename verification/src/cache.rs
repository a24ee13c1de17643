//! The metadata cache model: the track record, its content-addressed file
//! name, and the exact textual layout the record is persisted in.
//!
//! A record renders to one canonical JSON text. The parser accepts exactly
//! the byte strings that are renderings of well-formed records, and returns
//! the record: whatever it accepts, it proves by re-rendering, and whatever
//! was rendered, it accepts. Anything else - truncation, corruption,
//! reordered or stray fields - is a miss, and a miss only costs a fresh
//! analysis. Holding the readable set to the canonical layout is what makes
//! both directions of that promise provable.

use vstd::prelude::*;

use crate::units::MS_CAP;

verus! {

/// A byte allowed inside a stored text field: printable ASCII except the
/// quote and the backslash.
pub open spec fn byte_ok(b: u8) -> bool {
    0x20 <= b <= 0x7E && b != 0x22 && b != 0x5C
}

/// All bytes of a text field are allowed.
pub open spec fn text_ok(s: Seq<u8>) -> bool {
    forall|i: int| 0 <= i < s.len() ==> byte_ok(#[trigger] s[i])
}

/// One cached analysis record. Texts are ASCII; tempo is in thousandths of
/// a BPM and the duration in milliseconds.
pub struct CachedTrack {
    pub title: Vec<u8>,
    pub artist: Vec<u8>,
    pub key: Vec<u8>,
    pub bpm_milli: i64,
    pub duration_ms: i64,
}

impl CachedTrack {
    pub open spec fn wf(self) -> bool {
        &&& text_ok(self.title@)
        &&& text_ok(self.artist@)
        &&& text_ok(self.key@)
        &&& 0 <= self.bpm_milli <= MS_CAP
        &&& 0 <= self.duration_ms <= MS_CAP
    }
}

/// The decimal digits of `n`, most significant first.
pub open spec fn rec_digits(n: int) -> Seq<u8>
    decreases n,
{
    if n < 10 {
        seq![(48 + (if n < 0 { 0int } else { n })) as u8]
    } else {
        rec_digits(n / 10).push((48 + n % 10) as u8)
    }
}

/// The number a string of decimal digits denotes.
pub open spec fn digits_val(s: Seq<u8>) -> int
    decreases s.len(),
{
    if s.len() == 0 {
        0
    } else {
        digits_val(s.drop_last()) * 10 + (s.last() - 48)
    }
}

/// The decimal rendering of a number is made of digit characters and is
/// invertible: reading it back yields the number.
pub proof fn lemma_digits_round_trip(n: int)
    requires
        n >= 0,
    ensures
        digits_val(rec_digits(n)) == n,
        forall|i: int| 0 <= i < rec_digits(n).len() ==> 48 <= #[trigger] rec_digits(n)[i] <= 57,
    decreases n,
{
    if n < 10 {
        let s = rec_digits(n);
        assert(s == seq![(48 + n) as u8]);
        assert((48 + n) as u8 == 48 + n);
        assert(s.drop_last() =~= Seq::<u8>::empty());
        assert(digits_val(s.drop_last()) == 0);
        assert(s.last() == 48 + n);
        assert(digits_val(s) == digits_val(s.drop_last()) * 10 + (s.last() - 48));
    } else {
        lemma_digits_round_trip(n / 10);
        let s = rec_digits(n);
        assert(s.drop_last() =~= rec_digits(n / 10));
        vstd::arithmetic::div_mod::lemma_fundamental_div_mod(n, 10);
        vstd::arithmetic::div_mod::lemma_mod_division_less_than_divisor(n, 10);
        assert(0 <= n % 10 < 10);
        assert(s.last() == (48 + n % 10) as u8);
        assert((48 + n % 10) as u8 == 48 + n % 10);
        assert(digits_val(s) == digits_val(rec_digits(n / 10)) * 10 + n % 10);
        assert(forall|i: int|
            0 <= i < s.len() - 1 ==> s[i] == #[trigger] rec_digits(n / 10)[i]);
    }
}

/// A milli-unit value rendered as a decimal with three fraction digits.
pub open spec fn dec3(v: int) -> Seq<u8> {
    rec_digits(v / 1000) + seq![
        46u8,
        (48 + v / 100 % 10) as u8,
        (48 + v / 10 % 10) as u8,
        (48 + v % 10) as u8,
    ]
}

/// Literal segment of the record layout.
pub open spec fn lit_open() -> Seq<u8> {
    seq![123u8, 10u8, 32u8, 32u8, 34u8, 116u8, 105u8, 116u8, 108u8, 101u8, 34u8, 58u8, 32u8, 34u8]
}

/// Append the segment to `out`.
fn push_lit_open(out: &mut Vec<u8>)
    ensures
        final(out)@ == old(out)@ + lit_open(),
{
    out.push(123);
    out.push(10);
    out.push(32);
    out.push(32);
    out.push(34);
    out.push(116);
    out.push(105);
    out.push(116);
    out.push(108);
    out.push(101);
    out.push(34);
    out.push(58);
    out.push(32);
    out.push(34);
    proof {
        assert(final(out)@ =~= old(out)@ + lit_open());
    }
}

/// Literal segment of the record layout.
pub open spec fn lit_artist() -> Seq<u8> {
    seq![34u8, 44u8, 10u8, 32u8, 32u8, 34u8, 97u8, 114u8, 116u8, 105u8, 115u8, 116u8, 34u8, 58u8, 32u8, 34u8]
}

/// Append the segment to `out`.
fn push_lit_artist(out: &mut Vec<u8>)
    ensures
        final(out)@ == old(out)@ + lit_artist(),
{
    out.push(34);
    out.push(44);
    out.push(10);
    out.push(32);
    out.push(32);
    out.push(34);
    out.push(97);
    out.push(114);
    out.push(116);
    out.push(105);
    out.push(115);
    out.push(116);
    out.push(34);
    out.push(58);
    out.push(32);
    out.push(34);
    proof {
        assert(final(out)@ =~= old(out)@ + lit_artist());
    }
}

/// Literal segment of the record layout.
pub open spec fn lit_bpm() -> Seq<u8> {
    seq![34u8, 44u8, 10u8, 32u8, 32u8, 34u8, 98u8, 112u8, 109u8, 34u8, 58u8, 32u8]
}

/// Append the segment to `out`.
fn push_lit_bpm(out: &mut Vec<u8>)
    ensures
        final(out)@ == old(out)@ + lit_bpm(),
{
    out.push(34);
    out.push(44);
    out.push(10);
    out.push(32);
    out.push(32);
    out.push(34);
    out.push(98);
    out.push(112);
    out.push(109);
    out.push(34);
    out.push(58);
    out.push(32);
    proof {
        assert(final(out)@ =~= old(out)@ + lit_bpm());
    }
}

/// Literal segment of the record layout.
pub open spec fn lit_duration() -> Seq<u8> {
    seq![44u8, 10u8, 32u8, 32u8, 34u8, 100u8, 117u8, 114u8, 97u8, 116u8, 105u8, 111u8, 110u8, 34u8, 58u8, 32u8]
}

/// Append the segment to `out`.
fn push_lit_duration(out: &mut Vec<u8>)
    ensures
        final(out)@ == old(out)@ + lit_duration(),
{
    out.push(44);
    out.push(10);
    out.push(32);
    out.push(32);
    out.push(34);
    out.push(100);
    out.push(117);
    out.push(114);
    out.push(97);
    out.push(116);
    out.push(105);
    out.push(111);
    out.push(110);
    out.push(34);
    out.push(58);
    out.push(32);
    proof {
        assert(final(out)@ =~= old(out)@ + lit_duration());
    }
}

/// Literal segment of the record layout.
pub open spec fn lit_key() -> Seq<u8> {
    seq![44u8, 10u8, 32u8, 32u8, 34u8, 107u8, 101u8, 121u8, 34u8, 58u8, 32u8, 34u8]
}

/// Append the segment to `out`.
fn push_lit_key(out: &mut Vec<u8>)
    ensures
        final(out)@ == old(out)@ + lit_key(),
{
    out.push(44);
    out.push(10);
    out.push(32);
    out.push(32);
    out.push(34);
    out.push(107);
    out.push(101);
    out.push(121);
    out.push(34);
    out.push(58);
    out.push(32);
    out.push(34);
    proof {
        assert(final(out)@ =~= old(out)@ + lit_key());
    }
}

/// Literal segment of the record layout.
pub open spec fn lit_close() -> Seq<u8> {
    seq![34u8, 10u8, 125u8]
}

/// Append the segment to `out`.
fn push_lit_close(out: &mut Vec<u8>)
    ensures
        final(out)@ == old(out)@ + lit_close(),
{
    out.push(34);
    out.push(10);
    out.push(125);
    proof {
        assert(final(out)@ =~= old(out)@ + lit_close());
    }
}


/// The one canonical rendering of a record.
pub open spec fn render_spec(t: CachedTrack) -> Seq<u8> {
    lit_open() + t.title@ + lit_artist() + t.artist@ + lit_bpm() + dec3(t.bpm_milli as int)
        + lit_duration() + dec3(t.duration_ms as int) + lit_key() + t.key@ + lit_close()
}

/// Append the decimal digits of `n`.
fn push_digits(out: &mut Vec<u8>, n: i64)
    requires
        0 <= n <= MS_CAP,
    ensures
        final(out)@ == old(out)@ + rec_digits(n as int),
    decreases n,
{
    if n < 10 {
        out.push(48 + n as u8);
        proof {
            assert(final(out)@ =~= old(out)@ + rec_digits(n as int));
        }
    } else {
        push_digits(out, n / 10);
        out.push(48 + (n % 10) as u8);
        proof {
            assert(final(out)@ =~= old(out)@ + rec_digits(n as int));
        }
    }
}

/// Append a milli-unit value as a decimal with three fraction digits.
fn push_dec3(out: &mut Vec<u8>, v: i64)
    requires
        0 <= v <= MS_CAP,
    ensures
        final(out)@ == old(out)@ + dec3(v as int),
{
    push_digits(out, v / 1000);
    out.push(46);
    out.push(48 + (v / 100 % 10) as u8);
    out.push(48 + (v / 10 % 10) as u8);
    out.push(48 + (v % 10) as u8);
    proof {
        assert(final(out)@ =~= old(out)@ + dec3(v as int));
    }
}

/// Append a text field.
fn push_text(out: &mut Vec<u8>, s: &Vec<u8>)
    ensures
        final(out)@ == old(out)@ + s@,
{
    let mut i: usize = 0;
    while i < s.len()
        invariant
            i <= s@.len(),
            out@ == old(out)@ + s@.take(i as int),
        decreases s@.len() - i,
    {
        out.push(s[i]);
        proof {
            assert(old(out)@ + s@.take(i as int) + seq![s@[i as int]] =~= old(out)@ + s@.take(
                i as int + 1,
            ));
        }
        i += 1;
    }
    proof {
        assert(s@.take(s@.len() as int) =~= s@);
    }
}

/// Render a record to its canonical text.
pub fn render_track(t: &CachedTrack) -> (out: Vec<u8>)
    requires
        t.wf(),
    ensures
        out@ == render_spec(*t),
{
    let mut out: Vec<u8> = Vec::new();
    push_lit_open(&mut out);
    push_text(&mut out, &t.title);
    push_lit_artist(&mut out);
    push_text(&mut out, &t.artist);
    push_lit_bpm(&mut out);
    push_dec3(&mut out, t.bpm_milli);
    push_lit_duration(&mut out);
    push_dec3(&mut out, t.duration_ms);
    push_lit_key(&mut out);
    push_text(&mut out, &t.key);
    push_lit_close(&mut out);
    proof {
        assert(out@ =~= render_spec(*t));
    }
    out
}


/// Bytewise equality of two buffers.
fn vec_eq(a: &Vec<u8>, b: &Vec<u8>) -> (r: bool)
    ensures
        r <==> a@ == b@,
{
    if a.len() != b.len() {
        proof {
            assert(a@.len() != b@.len());
        }
        return false;
    }
    let mut i: usize = 0;
    while i < a.len()
        invariant
            a@.len() == b@.len(),
            i <= a@.len(),
            forall|j: int| 0 <= j < i ==> a@[j] == b@[j],
        decreases a@.len() - i,
    {
        if a[i] != b[i] {
            return false;
        }
        i += 1;
    }
    proof {
        assert(a@ =~= b@);
    }
    true
}

/// Whether every byte of `s` is allowed in a text field.
fn check_text(s: &Vec<u8>) -> (r: bool)
    ensures
        r <==> text_ok(s@),
{
    let mut i: usize = 0;
    while i < s.len()
        invariant
            i <= s@.len(),
            forall|j: int| 0 <= j < i ==> byte_ok(#[trigger] s@[j]),
        decreases s@.len() - i,
    {
        let c = s[i];
        if !(0x20 <= c && c <= 0x7E && c != 0x22 && c != 0x5C) {
            return false;
        }
        i += 1;
    }
    true
}

/// The bytes of `b` in `[lo, hi)`.
fn subvec(b: &Vec<u8>, lo: usize, hi: usize) -> (r: Vec<u8>)
    requires
        lo <= hi <= b@.len(),
    ensures
        r@ == b@.subrange(lo as int, hi as int),
{
    let mut r: Vec<u8> = Vec::new();
    let mut i: usize = lo;
    while i < hi
        invariant
            lo <= i <= hi <= b@.len(),
            r@ == b@.subrange(lo as int, i as int),
        decreases hi - i,
    {
        r.push(b[i]);
        proof {
            assert(b@.subrange(lo as int, i as int).push(b@[i as int]) =~= b@.subrange(
                lo as int,
                i as int + 1,
            ));
        }
        i += 1;
    }
    r
}

/// The ascending indices of quote bytes in `b`, scanning from `i`.
pub open spec fn quote_indices_from(b: Seq<u8>, i: int) -> Seq<int>
    decreases b.len() - i,
{
    if i < 0 || i >= b.len() {
        Seq::empty()
    } else if b[i] == 0x22 {
        seq![i] + quote_indices_from(b, i + 1)
    } else {
        quote_indices_from(b, i + 1)
    }
}

/// Positions of every quote byte in `b`, in order.
fn quote_positions(b: &Vec<u8>) -> (qs: Vec<usize>)
    ensures
        qs@.map_values(|u: usize| u as int) == quote_indices_from(b@, 0),
        forall|j: int| 0 <= j < qs@.len() ==> #[trigger] qs@[j] < b@.len(),
        forall|j0: int, j1: int| 0 <= j0 < j1 < qs@.len() ==> qs@[j0] < qs@[j1],
{
    let mut qs: Vec<usize> = Vec::new();
    let mut i: usize = 0;
    while i < b.len()
        invariant
            i <= b@.len(),
            quote_indices_from(b@, 0) == qs@.map_values(|u: usize| u as int)
                + quote_indices_from(b@, i as int),
            forall|j: int| 0 <= j < qs@.len() ==> #[trigger] qs@[j] < i,
            forall|j0: int, j1: int| 0 <= j0 < j1 < qs@.len() ==> qs@[j0] < qs@[j1],
        decreases b@.len() - i,
    {
        if b[i] == 0x22 {
            proof {
                assert(quote_indices_from(b@, i as int) == seq![i as int] + quote_indices_from(
                    b@,
                    i as int + 1,
                ));
                assert(qs@.push(i).map_values(|u: usize| u as int) =~= qs@.map_values(
                    |u: usize| u as int,
                ) + seq![i as int]);
                assert(qs@.map_values(|u: usize| u as int) + (seq![i as int]
                    + quote_indices_from(b@, i as int + 1)) =~= (qs@.map_values(
                    |u: usize| u as int,
                ) + seq![i as int]) + quote_indices_from(b@, i as int + 1));
            }
            qs.push(i);
        } else {
            proof {
                assert(quote_indices_from(b@, i as int) == quote_indices_from(b@, i as int + 1));
            }
        }
        i += 1;
    }
    proof {
        assert(quote_indices_from(b@, b@.len() as int) == Seq::<int>::empty());
        assert(qs@.map_values(|u: usize| u as int) + Seq::<int>::empty() =~= qs@.map_values(
            |u: usize| u as int,
        ));
    }
    qs
}

/// `b` carries the milli-unit decimal of `v` starting at `start`.
pub open spec fn holds_dec3_at(b: Seq<u8>, start: int, v: int) -> bool {
    &&& 0 <= v <= MS_CAP
    &&& 0 <= start
    &&& start + dec3(v).len() <= b.len()
    &&& b.subrange(start, start + dec3(v).len() as int) == dec3(v)
}

/// Read a milli-unit decimal (digits, a point, three digits) at `start`.
/// Yields the value and the position after it; where the text at `start` is
/// the decimal of a value in range, that value is read back exactly.
fn parse_number_at(b: &Vec<u8>, start: usize, gv: Ghost<int>) -> (r: Option<(i64, usize)>)
    requires
        b@.len() < 0x10000000,
    ensures
        r matches Some(p) ==> 0 <= p.0 <= MS_CAP,
        holds_dec3_at(b@, start as int, gv@) ==> (r matches Some(p) && p.0 as int == gv@
            && p.1 as int == start + dec3(gv@).len()),
{
    let ghost vv = gv@;
    let ghost hv = holds_dec3_at(b@, start as int, vv);
    let ghost q = vv / 1000;
    let ghost rd = rec_digits(q);
    let ghost dlen = dec3(vv).len() as int;
    proof {
        if hv {
            vstd::arithmetic::div_mod::lemma_div_pos_is_pos(vv, 1000);
            vstd::arithmetic::div_mod::lemma_div_is_ordered(vv, MS_CAP as int, 1000);
            lemma_digits_round_trip(q);
            assert forall|k: int| 0 <= k < dlen implies b@[start + k] == #[trigger] dec3(vv)[k] by {
                assert(b@.subrange(start as int, start as int + dlen)[k] == b@[start + k]);
            }
            assert forall|k: int| 0 <= k < rd.len() implies #[trigger] rd[k] == b@[start + k] by {
                assert(dec3(vv)[k] == rd[k]);
            }
            assert(dec3(vv)[rd.len() as int] == 46);
        }
    }
    let n = b.len();
    if start >= n {
        proof {
            if hv {
                assert(false);
            }
        }
        return None;
    }
    let mut i = start;
    let mut ipart: i64 = 0;
    let mut seen = false;
    while i < n && 48 <= b[i] && b[i] <= 57
        invariant
            start <= i <= n == b@.len(),
            0 <= ipart <= MS_CAP,
            vv == gv@,
            q == vv / 1000,
            rd == rec_digits(q),
            dlen == dec3(vv).len(),
            hv == holds_dec3_at(b@, start as int, vv),
            hv ==> 0 <= vv <= MS_CAP && 0 <= q <= 1099511627 && start + dlen <= n && dlen
                == rd.len() + 4 && 1 <= rd.len() && digits_val(rd) == q,
            hv ==> forall|k: int| 0 <= k < dlen ==> b@[start + k] == #[trigger] dec3(vv)[k],
            hv ==> forall|k: int| 0 <= k < rd.len() ==> #[trigger] rd[k] == b@[start + k],
            hv ==> forall|k: int| 0 <= k < rd.len() ==> 48 <= #[trigger] rd[k] <= 57,
            hv ==> b@[start + rd.len()] == 46,
            hv ==> i <= start + rd.len(),
            hv ==> ipart as int == digits_val(rd.take(i - start)),
            hv ==> (seen <==> i > start),
        decreases n - i,
    {
        if ipart > 1099511627 {
            proof {
                if hv {
                    lemma_digits_prefix_le(rd, i - start);
                    assert(false);
                }
            }
            return None;
        }
        proof {
            if hv {
                if i - start == rd.len() {
                    assert(b@[i as int] == 46);
                    assert(false);
                }
                assert(rd.take(i - start + 1).drop_last() =~= rd.take(i - start));
                assert(rd.take(i - start + 1).last() == rd[i - start]);
                assert(b@[i as int] == rd[i - start]);
            }
        }
        ipart = ipart * 10 + (b[i] - 48) as i64;
        seen = true;
        i += 1;
    }
    proof {
        if hv {
            if i < start + rd.len() {
                assert(b@[i as int] == rd[i - start]);
                assert(false);
            }
            assert(i == start + rd.len());
            assert(rd.take(i - start) =~= rd);
            assert(ipart as int == q);
        }
    }
    if !seen {
        proof {
            if hv {
                assert(false);
            }
        }
        return None;
    }
    if i + 3 >= n || b[i] != 46 {
        proof {
            if hv {
                assert(b@[i as int] == b@[start + rd.len()]);
                assert(false);
            }
        }
        return None;
    }
    let d1 = b[i + 1];
    let d2 = b[i + 2];
    let d3 = b[i + 3];
    proof {
        if hv {
            vstd::arithmetic::div_mod::lemma_mod_division_less_than_divisor(vv, 10);
            vstd::arithmetic::div_mod::lemma_mod_division_less_than_divisor(vv / 10, 10);
            vstd::arithmetic::div_mod::lemma_mod_division_less_than_divisor(vv / 100, 10);
            vstd::arithmetic::div_mod::lemma_div_pos_is_pos(vv / 10, 10);
            vstd::arithmetic::div_mod::lemma_div_pos_is_pos(vv, 10);
            vstd::arithmetic::div_mod::lemma_div_pos_is_pos(vv, 100);
            assert(b@[start + (rd.len() + 1)] == dec3(vv)[rd.len() as int + 1]);
            assert(b@[start + (rd.len() + 2)] == dec3(vv)[rd.len() as int + 2]);
            assert(b@[start + (rd.len() + 3)] == dec3(vv)[rd.len() as int + 3]);
            assert(d1 as int == 48 + vv / 100 % 10);
            assert(d2 as int == 48 + vv / 10 % 10);
            assert(d3 as int == 48 + vv % 10);
        }
    }
    if !(48 <= d1 && d1 <= 57 && 48 <= d2 && d2 <= 57 && 48 <= d3 && d3 <= 57) {
        proof {
            if hv {
                assert(false);
            }
        }
        return None;
    }
    let frac = (d1 - 48) as i64 * 100 + (d2 - 48) as i64 * 10 + (d3 - 48) as i64;
    proof {
        if hv {
            lemma_milli_digits(vv);
            assert(frac as int == vv % 1000);
            vstd::arithmetic::div_mod::lemma_fundamental_div_mod(vv, 1000);
            assert(1000 * q <= MS_CAP - frac);
            vstd::arithmetic::div_mod::lemma_div_is_ordered(
                1000 * q,
                MS_CAP - frac,
                1000,
            );
            vstd::arithmetic::div_mod::lemma_div_multiples_vanish(q, 1000);
            assert(ipart as int <= (MS_CAP - frac) as int / 1000);
        }
    }
    if ipart > (MS_CAP - frac) / 1000 {
        proof {
            if hv {
                assert(false);
            }
        }
        return None;
    }
    let out = ipart * 1000 + frac;
    proof {
        assert(ipart * 1000 + frac <= MS_CAP) by (nonlinear_arith)
            requires
                0 <= frac <= 999,
                0 <= ipart <= (MS_CAP - frac) / 1000,
                MS_CAP == 1099511627776,
        ;
        assert(ipart * 1000 >= 0) by (nonlinear_arith)
            requires
                ipart >= 0,
        ;
        if hv {
            vstd::arithmetic::div_mod::lemma_fundamental_div_mod(vv, 1000);
            assert(out as int == vv);
            assert(i + 4 == start + dlen);
        }
    }
    Some((out, i + 4))
}

/// Where each field of a well-formed record lies inside its canonical
/// rendering, and the sixteen quote positions that frame them.
#[verifier::rlimit(100)]
proof fn lemma_render_layout(tc: CachedTrack)
    requires
        tc.wf(),
    ensures
        ({
            let b = render_spec(tc);
            let tl = tc.title@.len() as int;
            let al = tc.artist@.len() as int;
            let bd = dec3(tc.bpm_milli as int).len() as int;
            let dd = dec3(tc.duration_ms as int).len() as int;
            let kl = tc.key@.len() as int;
            &&& b.len() == tl + al + bd + dd + kl + 73
            &&& quote_indices_from(b, 0) == seq![
                4int,
                10,
                13,
                tl + 14,
                tl + 19,
                tl + 26,
                tl + 29,
                tl + al + 30,
                tl + al + 35,
                tl + al + 39,
                tl + al + bd + 46,
                tl + al + bd + 55,
                tl + al + bd + dd + 62,
                tl + al + bd + dd + 66,
                tl + al + bd + dd + 69,
                tl + al + bd + dd + kl + 70,
            ]
            &&& b.subrange(14, 14 + tl) == tc.title@
            &&& b.subrange(tl + 30, tl + 30 + al) == tc.artist@
            &&& b.subrange(tl + al + bd + dd + 70, tl + al + bd + dd + 70 + kl) == tc.key@
            &&& holds_dec3_at(b, tl + al + 42, tc.bpm_milli as int)
            &&& holds_dec3_at(b, tl + al + bd + 58, tc.duration_ms as int)
        }),
{
    let b = render_spec(tc);
    let tl = tc.title@.len() as int;
    let al = tc.artist@.len() as int;
    let bd = dec3(tc.bpm_milli as int).len() as int;
    let dd = dec3(tc.duration_ms as int).len() as int;
    let kl = tc.key@.len() as int;
    lemma_render_quotes(tc);
    let r10 = lit_close();
    let r9 = tc.key@ + r10;
    let r8 = lit_key() + r9;
    let r7 = dec3(tc.duration_ms as int) + r8;
    let r6 = lit_duration() + r7;
    let r5 = dec3(tc.bpm_milli as int) + r6;
    let r4 = lit_bpm() + r5;
    let r3 = tc.artist@ + r4;
    let r2 = lit_artist() + r3;
    let r1 = tc.title@ + r2;
    let r0 = lit_open() + r1;
    assert(b =~= r0);
    assert(b.len() == tl + al + bd + dd + kl + 73);
    assert forall|k: int| 0 <= k < tl implies b[14 + k] == #[trigger] tc.title@[k] by {
        assert(b[14 + k] == r1[k]);
        assert(r1[k] == tc.title@[k]);
    }
    assert(b.subrange(14, 14 + tl) =~= tc.title@);
    assert forall|k: int| 0 <= k < al implies b[tl + 30 + k] == #[trigger] tc.artist@[k] by {
        assert(b[tl + 30 + k] == r1[tl + 16 + k]);
        assert(r1[tl + 16 + k] == r2[16 + k]);
        assert(r2[16 + k] == r3[k]);
        assert(r3[k] == tc.artist@[k]);
    }
    assert(b.subrange(tl + 30, tl + 30 + al) =~= tc.artist@);
    assert forall|k: int|
        0 <= k < bd implies b[tl + al + 42 + k] == #[trigger] dec3(tc.bpm_milli as int)[k] by {
        assert(b[tl + al + 42 + k] == r1[tl + al + 28 + k]);
        assert(r1[tl + al + 28 + k] == r2[al + 28 + k]);
        assert(r2[al + 28 + k] == r3[al + 12 + k]);
        assert(r3[al + 12 + k] == r4[12 + k]);
        assert(r4[12 + k] == r5[k]);
        assert(r5[k] == dec3(tc.bpm_milli as int)[k]);
    }
    assert(b.subrange(tl + al + 42, tl + al + 42 + bd) =~= dec3(tc.bpm_milli as int));
    assert forall|k: int|
        0 <= k < dd implies b[tl + al + bd + 58 + k] == #[trigger] dec3(
            tc.duration_ms as int,
        )[k] by {
        assert(b[tl + al + bd + 58 + k] == r1[tl + al + bd + 44 + k]);
        assert(r1[tl + al + bd + 44 + k] == r2[al + bd + 44 + k]);
        assert(r2[al + bd + 44 + k] == r3[al + bd + 28 + k]);
        assert(r3[al + bd + 28 + k] == r4[bd + 28 + k]);
        assert(r4[bd + 28 + k] == r5[bd + 16 + k]);
        assert(r5[bd + 16 + k] == r6[16 + k]);
        assert(r6[16 + k] == r7[k]);
        assert(r7[k] == dec3(tc.duration_ms as int)[k]);
    }
    assert(b.subrange(tl + al + bd + 58, tl + al + bd + 58 + dd) =~= dec3(tc.duration_ms as int));
    assert forall|k: int|
        0 <= k < kl implies b[tl + al + bd + dd + 70 + k] == #[trigger] tc.key@[k] by {
        assert(b[tl + al + bd + dd + 70 + k] == r1[tl + al + bd + dd + 56 + k]);
        assert(r1[tl + al + bd + dd + 56 + k] == r2[al + bd + dd + 56 + k]);
        assert(r2[al + bd + dd + 56 + k] == r3[al + bd + dd + 40 + k]);
        assert(r3[al + bd + dd + 40 + k] == r4[bd + dd + 40 + k]);
        assert(r4[bd + dd + 40 + k] == r5[bd + dd + 28 + k]);
        assert(r5[bd + dd + 28 + k] == r6[dd + 28 + k]);
        assert(r6[dd + 28 + k] == r7[dd + 12 + k]);
        assert(r7[dd + 12 + k] == r8[12 + k]);
        assert(r8[12 + k] == r9[k]);
        assert(r9[k] == tc.key@[k]);
    }
    assert(b.subrange(tl + al + bd + dd + 70, tl + al + bd + dd + 70 + kl) =~= tc.key@);
}

/// Parse a record from its canonical text. Whatever comes back is proved
/// right by re-rendering: a `Some` is a well-formed record whose rendering
/// is exactly `b`, and the canonical rendering of any well-formed record is
/// accepted. Any other content is a miss, never an error.
#[verifier::rlimit(100)]
pub fn parse_track(b: &Vec<u8>) -> (r: Option<CachedTrack>)
    requires
        b@.len() < 0x10000000,
    ensures
        r matches Some(t) ==> t.wf() && b@ == render_spec(t),
        (exists|t: CachedTrack| t.wf() && b@ == render_spec(t)) ==> r is Some,
{
    let ghost canonical = exists|t: CachedTrack| t.wf() && b@ == render_spec(t);
    let ghost tc = choose|t: CachedTrack| t.wf() && b@ == render_spec(t);
    let ghost tl = tc.title@.len() as int;
    let ghost al = tc.artist@.len() as int;
    let ghost bd = dec3(tc.bpm_milli as int).len() as int;
    let ghost dd = dec3(tc.duration_ms as int).len() as int;
    let ghost kl = tc.key@.len() as int;
    proof {
        if canonical {
            assert(tc.wf() && b@ == render_spec(tc));
            lemma_render_layout(tc);
        }
    }
    let qs = quote_positions(b);
    proof {
        if canonical {
            assert(qs@.map_values(|u: usize| u as int).len() == 16);
            assert forall|j: int|
                0 <= j < 16 implies #[trigger] qs@[j] as int == quote_indices_from(b@, 0)[j] by {
                assert(qs@.map_values(|u: usize| u as int)[j] == qs@[j] as int);
            }
            assert(qs@[2] as int == 13);
            assert(qs@[3] as int == tl + 14);
            assert(qs@[6] as int == tl + 29);
            assert(qs@[7] as int == tl + al + 30);
            assert(qs@[9] as int == tl + al + 39);
            assert(qs@[11] as int == tl + al + bd + 55);
            assert(qs@[14] as int == tl + al + bd + dd + 69);
            assert(qs@[15] as int == tl + al + bd + dd + kl + 70);
        }
    }
    if qs.len() != 16 {
        proof {
            if canonical {
                assert(false);
            }
        }
        return None;
    }
    let title = subvec(b, qs[2] + 1, qs[3]);
    let artist = subvec(b, qs[6] + 1, qs[7]);
    let key = subvec(b, qs[14] + 1, qs[15]);
    proof {
        if canonical {
            assert(title@ == b@.subrange(14, 14 + tl));
            assert(artist@ == b@.subrange(tl + 30, tl + 30 + al));
            assert(key@ == b@.subrange(tl + al + bd + dd + 70, tl + al + bd + dd + 70 + kl));
            assert(title@ == tc.title@ && artist@ == tc.artist@ && key@ == tc.key@);
        }
    }
    if !check_text(&title) || !check_text(&artist) || !check_text(&key) {
        proof {
            if canonical {
                assert(false);
            }
        }
        return None;
    }
    let bpm_milli = match parse_number_at(b, qs[9] + 3, Ghost(tc.bpm_milli as int)) {
        Some(p) => p.0,
        None => {
            proof {
                if canonical {
                    assert(false);
                }
            }
            return None;
        },
    };
    let duration_ms = match parse_number_at(b, qs[11] + 3, Ghost(tc.duration_ms as int)) {
        Some(p) => p.0,
        None => {
            proof {
                if canonical {
                    assert(false);
                }
            }
            return None;
        },
    };
    let t = CachedTrack { title, artist, key, bpm_milli, duration_ms };
    let rendered = render_track(&t);
    proof {
        if canonical {
            assert(bpm_milli == tc.bpm_milli);
            assert(duration_ms == tc.duration_ms);
            assert(render_spec(t) =~= render_spec(tc));
            assert(rendered@ == b@);
        }
    }
    if vec_eq(&rendered, b) {
        Some(t)
    } else {
        proof {
            if canonical {
                assert(false);
            }
        }
        None
    }
}

/// What the content hash of a byte string is. Its value is fixed by the hash
/// function alone; this crate only relies on it being a function of the
/// bytes.
pub uninterp spec fn digest_of(bytes: Seq<u8>) -> Seq<u8>;

/// Relies on blake3::hash: a 32-byte digest computed from the input bytes
/// alone, the same on every machine.
#[verifier::external_body]
fn blake3_digest(input: &Vec<u8>) -> (r: Vec<u8>)
    ensures
        r@ == digest_of(input@),
        r@.len() == 32,
{
    blake3::hash(input.as_slice()).as_bytes().to_vec()
}

/// A nibble as a lowercase hex character.
pub open spec fn hex_digit(d: u8) -> u8 {
    if d < 10 {
        (48 + d) as u8
    } else {
        (87 + d) as u8
    }
}

/// Lowercase hex of a byte string, two characters per byte.
pub open spec fn hex_of(s: Seq<u8>) -> Seq<u8> {
    Seq::new(
        2 * s.len(),
        |i: int|
            if i % 2 == 0 {
                hex_digit(s[i / 2] >> 4)
            } else {
                hex_digit(s[i / 2] & 15)
            },
    )
}

/// Hex-encode a byte string, lowercase.
fn to_hex(bytes: &Vec<u8>) -> (r: Vec<u8>)
    ensures
        r@ == hex_of(bytes@),
{
    let mut r: Vec<u8> = Vec::new();
    let mut i: usize = 0;
    while i < bytes.len()
        invariant
            i <= bytes@.len(),
            r@.len() == 2 * i,
            forall|j: int| 0 <= j < 2 * i ==> #[trigger] r@[j] == hex_of(bytes@)[j],
        decreases bytes@.len() - i,
    {
        let byt = bytes[i];
        let hi = byt >> 4;
        let lo = byt & 15;
        proof {
            assert(byt >> 4 < 16 && byt & 15 < 16) by (bit_vector);
        }
        r.push(if hi < 10 {
            48 + hi
        } else {
            87 + hi
        });
        r.push(if lo < 10 {
            48 + lo
        } else {
            87 + lo
        });
        i += 1;
    }
    proof {
        assert(r@ =~= hex_of(bytes@));
    }
    r
}

/// The ".json" suffix of every cache file name.
pub open spec fn json_suffix() -> Seq<u8> {
    seq![46u8, 106u8, 115u8, 111u8, 110u8]
}

/// The cache file name for a track path: the lowercase hex of the path's
/// content hash, plus ".json".
pub fn cache_file_name(track_path: &Vec<u8>) -> (r: Vec<u8>)
    ensures
        r@ == hex_of(digest_of(track_path@)) + json_suffix(),
        r@.len() == 69,
{
    let d = blake3_digest(track_path);
    let mut r = to_hex(&d);
    r.push(46);
    r.push(106);
    r.push(115);
    r.push(111);
    r.push(110);
    proof {
        assert(r@ =~= hex_of(digest_of(track_path@)) + json_suffix());
    }
    r
}

/// The full cache path for a track: the cache root, a separator, and the
/// content-addressed file name.
pub fn cache_path_for(cache_root: &Vec<u8>, track_path: &Vec<u8>) -> (r: Vec<u8>)
    ensures
        r@ == cache_root@ + seq![47u8] + hex_of(digest_of(track_path@)) + json_suffix(),
{
    let mut r: Vec<u8> = Vec::new();
    push_text(&mut r, cache_root);
    r.push(47);
    let name = cache_file_name(track_path);
    push_text(&mut r, &name);
    proof {
        assert(r@ =~= cache_root@ + seq![47u8] + hex_of(digest_of(track_path@)) + json_suffix());
    }
    r
}


/// Store-then-load round trip: on the canonical rendering of a well-formed
/// record, any result meeting the parser's contract is `Some` of exactly
/// that record, field for field.
pub proof fn lemma_cache_round_trip(t: CachedTrack, r: Option<CachedTrack>)
    requires
        t.wf(),
        r matches Some(t2) ==> t2.wf() && render_spec(t) == render_spec(t2),
        (exists|t3: CachedTrack| t3.wf() && render_spec(t) == render_spec(t3)) ==> r is Some,
    ensures
        r matches Some(t2) && t2.title@ == t.title@ && t2.artist@ == t.artist@ && t2.key@
            == t.key@ && t2.bpm_milli == t.bpm_milli && t2.duration_ms == t.duration_ms,
{
    assert(t.wf() && render_spec(t) == render_spec(t));
    assert(exists|t3: CachedTrack| t3.wf() && render_spec(t) == render_spec(t3));
    let t2 = r->Some_0;
    lemma_render_injective(t, t2);
    assert(t2.title@ == t.title@ && t2.artist@ == t.artist@ && t2.key@ == t.key@);
}

/// Equal concatenations with an equal first part cancel it.
proof fn lemma_cancel_prefix(l: Seq<u8>, a: Seq<u8>, b: Seq<u8>)
    requires
        l + a == l + b,
    ensures
        a == b,
{
    assert((l + a).len() == l.len() + a.len());
    assert((l + b).len() == l.len() + b.len());
    assert(a.len() == b.len());
    assert forall|i: int| 0 <= i < a.len() implies a[i] == b[i] by {
        vstd::seq::lemma_seq_add_index2_alt(l, a, i);
        vstd::seq::lemma_seq_add_index2_alt(l, b, i);
    }
    assert(a =~= b);
}

/// In equal concatenations, a quote-free text ended by a quote is cut at the
/// same place on both sides.
proof fn lemma_text_segment_equal(x: Seq<u8>, xr: Seq<u8>, y: Seq<u8>, yr: Seq<u8>)
    requires
        text_ok(x),
        text_ok(y),
        x + xr == y + yr,
        xr.len() > 0,
        yr.len() > 0,
        xr[0] == 0x22,
        yr[0] == 0x22,
    ensures
        x == y,
        xr == yr,
{
    if x.len() < y.len() {
        assert((x + xr)[x.len() as int] == 0x22);
        assert((y + yr)[x.len() as int] == y[x.len() as int]);
        assert(byte_ok(y[x.len() as int]));
        assert(false);
    }
    if y.len() < x.len() {
        assert((y + yr)[y.len() as int] == 0x22);
        assert((x + xr)[y.len() as int] == x[y.len() as int]);
        assert(byte_ok(x[y.len() as int]));
        assert(false);
    }
    assert forall|i: int| 0 <= i < x.len() implies x[i] == y[i] by {
        assert((x + xr)[i] == x[i]);
        assert((y + yr)[i] == y[i]);
    }
    assert(x =~= y);
    lemma_cancel_prefix(x, xr, yr);
}

/// In equal concatenations, a digit run ended by a non-digit is cut at the
/// same place on both sides.
proof fn lemma_digit_segment_equal(x: Seq<u8>, xr: Seq<u8>, y: Seq<u8>, yr: Seq<u8>)
    requires
        forall|i: int| 0 <= i < x.len() ==> 48 <= #[trigger] x[i] <= 57,
        forall|i: int| 0 <= i < y.len() ==> 48 <= #[trigger] y[i] <= 57,
        x + xr == y + yr,
        xr.len() > 0,
        yr.len() > 0,
        !(48 <= xr[0] <= 57),
        !(48 <= yr[0] <= 57),
    ensures
        x == y,
        xr == yr,
{
    if x.len() < y.len() {
        assert((x + xr)[x.len() as int] == xr[0]);
        assert((y + yr)[x.len() as int] == y[x.len() as int]);
        assert(false);
    }
    if y.len() < x.len() {
        assert((y + yr)[y.len() as int] == yr[0]);
        assert((x + xr)[y.len() as int] == x[y.len() as int]);
        assert(false);
    }
    assert forall|i: int| 0 <= i < x.len() implies x[i] == y[i] by {
        assert((x + xr)[i] == x[i]);
        assert((y + yr)[i] == y[i]);
    }
    assert(x =~= y);
    lemma_cancel_prefix(x, xr, yr);
}

/// The milli-unit decimal layout is injective.
proof fn lemma_dec3_injective(v: int, w: int, vr: Seq<u8>, wr: Seq<u8>)
    requires
        0 <= v,
        0 <= w,
        dec3(v) + vr == dec3(w) + wr,
        vr.len() > 0,
        wr.len() > 0,
        !(48 <= vr[0] <= 57),
        !(48 <= wr[0] <= 57),
    ensures
        v == w,
        vr == wr,
{
    lemma_digits_round_trip(v / 1000);
    lemma_digits_round_trip(w / 1000);
    let fv = seq![
        46u8,
        (48 + v / 100 % 10) as u8,
        (48 + v / 10 % 10) as u8,
        (48 + v % 10) as u8,
    ];
    let fw = seq![
        46u8,
        (48 + w / 100 % 10) as u8,
        (48 + w / 10 % 10) as u8,
        (48 + w % 10) as u8,
    ];
    assert(dec3(v) + vr =~= rec_digits(v / 1000) + (fv + vr));
    assert(dec3(w) + wr =~= rec_digits(w / 1000) + (fw + wr));
    lemma_digit_segment_equal(rec_digits(v / 1000), fv + vr, rec_digits(w / 1000), fw + wr);
    assert(v / 1000 == digits_val(rec_digits(v / 1000)));
    assert(v / 1000 == w / 1000);
    assert((fv + vr)[1] == (fw + wr)[1]);
    assert((fv + vr)[2] == (fw + wr)[2]);
    assert((fv + vr)[3] == (fw + wr)[3]);
    assert(0 <= v % 10 < 10 && 0 <= w % 10 < 10) by (nonlinear_arith)
        requires
            v >= 0,
            w >= 0,
    ;
    assert(0 <= v / 10 % 10 < 10 && 0 <= w / 10 % 10 < 10) by (nonlinear_arith)
        requires
            v >= 0,
            w >= 0,
    ;
    assert(0 <= v / 100 % 10 < 10 && 0 <= w / 100 % 10 < 10) by (nonlinear_arith)
        requires
            v >= 0,
            w >= 0,
    ;
    assert(v / 100 % 10 == w / 100 % 10);
    assert(v / 10 % 10 == w / 10 % 10);
    assert(v % 10 == w % 10);
    assert(v == w) by (nonlinear_arith)
        requires
            v >= 0,
            w >= 0,
            v / 1000 == w / 1000,
            v / 100 % 10 == w / 100 % 10,
            v / 10 % 10 == w / 10 % 10,
            v % 10 == w % 10,
    ;
    assert forall|i: int| 0 <= i < vr.len() implies vr[i] == wr[i] by {
        assert((fv + vr)[4 + i] == vr[i]);
        assert((fw + wr)[4 + i] == wr[i]);
    }
    assert((fv + vr).len() == (fw + wr).len());
    assert(vr =~= wr);
}

/// A record is recoverable from its rendering: two well-formed records with
/// the same canonical text are the same record.
#[verifier::rlimit(100)]
pub proof fn lemma_render_injective(a: CachedTrack, b: CachedTrack)
    requires
        a.wf(),
        b.wf(),
        render_spec(a) == render_spec(b),
    ensures
        a.title@ == b.title@,
        a.artist@ == b.artist@,
        a.key@ == b.key@,
        a.bpm_milli == b.bpm_milli,
        a.duration_ms == b.duration_ms,
{
    let ta = a.title@;
    let tb = b.title@;
    let ra = lit_artist() + a.artist@ + lit_bpm() + dec3(a.bpm_milli as int) + lit_duration()
        + dec3(a.duration_ms as int) + lit_key() + a.key@ + lit_close();
    let rb = lit_artist() + b.artist@ + lit_bpm() + dec3(b.bpm_milli as int) + lit_duration()
        + dec3(b.duration_ms as int) + lit_key() + b.key@ + lit_close();
    assert(render_spec(a) =~= lit_open() + (ta + ra));
    assert(render_spec(b) =~= lit_open() + (tb + rb));
    lemma_cancel_prefix(lit_open(), ta + ra, tb + rb);
    assert(ra[0] == 0x22 && rb[0] == 0x22);
    lemma_text_segment_equal(ta, ra, tb, rb);

    let aa = a.artist@;
    let ab = b.artist@;
    let sa = lit_bpm() + dec3(a.bpm_milli as int) + lit_duration() + dec3(a.duration_ms as int)
        + lit_key() + a.key@ + lit_close();
    let sb = lit_bpm() + dec3(b.bpm_milli as int) + lit_duration() + dec3(b.duration_ms as int)
        + lit_key() + b.key@ + lit_close();
    assert(ra =~= lit_artist() + (aa + sa));
    assert(rb =~= lit_artist() + (ab + sb));
    lemma_cancel_prefix(lit_artist(), aa + sa, ab + sb);
    assert(sa[0] == 0x22 && sb[0] == 0x22);
    lemma_text_segment_equal(aa, sa, ab, sb);

    let ua = dec3(a.bpm_milli as int);
    let ub = dec3(b.bpm_milli as int);
    let va = lit_duration() + dec3(a.duration_ms as int) + lit_key() + a.key@ + lit_close();
    let vb = lit_duration() + dec3(b.duration_ms as int) + lit_key() + b.key@ + lit_close();
    assert(sa =~= lit_bpm() + (ua + va));
    assert(sb =~= lit_bpm() + (ub + vb));
    lemma_cancel_prefix(lit_bpm(), ua + va, ub + vb);
    assert(va[0] == 44 && vb[0] == 44);
    lemma_dec3_injective(a.bpm_milli as int, b.bpm_milli as int, va, vb);

    let wa = dec3(a.duration_ms as int);
    let wb = dec3(b.duration_ms as int);
    let ka = lit_key() + a.key@ + lit_close();
    let kb = lit_key() + b.key@ + lit_close();
    assert(va =~= lit_duration() + (wa + ka));
    assert(vb =~= lit_duration() + (wb + kb));
    lemma_cancel_prefix(lit_duration(), wa + ka, wb + kb);
    assert(ka[0] == 44 && kb[0] == 44);
    lemma_dec3_injective(a.duration_ms as int, b.duration_ms as int, ka, kb);

    assert(ka =~= lit_key() + (a.key@ + lit_close()));
    assert(kb =~= lit_key() + (b.key@ + lit_close()));
    lemma_cancel_prefix(lit_key(), a.key@ + lit_close(), b.key@ + lit_close());
    assert(lit_close()[0] == 0x22);
    lemma_text_segment_equal(a.key@, lit_close(), b.key@, lit_close());
}

/// Quote indices in the tail of a concatenation are the tail's own, shifted.
proof fn lemma_quotes_tail(a: Seq<u8>, b: Seq<u8>, j: int)
    requires
        0 <= j <= b.len(),
    ensures
        quote_indices_from(a + b, a.len() + j) == quote_indices_from(b, j).map_values(
            |k: int| k + a.len(),
        ),
    decreases b.len() - j,
{
    if j < b.len() {
        lemma_quotes_tail(a, b, j + 1);
        assert((a + b)[a.len() + j] == b[j]);
        if b[j] == 0x22 {
            assert((seq![j] + quote_indices_from(b, j + 1)).map_values(|k: int| k + a.len())
                =~= seq![a.len() + j] + quote_indices_from(b, j + 1).map_values(
                |k: int| k + a.len(),
            ));
        }
    } else {
        assert(quote_indices_from(b, j) == Seq::<int>::empty());
        assert(quote_indices_from(a + b, a.len() + j) == Seq::<int>::empty());
        assert(Seq::<int>::empty().map_values(|k: int| k + a.len()) =~= Seq::<int>::empty());
    }
}

/// Quote indices of a concatenation split at the seam.
proof fn lemma_quotes_head(a: Seq<u8>, b: Seq<u8>, i: int)
    requires
        0 <= i <= a.len(),
    ensures
        quote_indices_from(a + b, i) == quote_indices_from(a, i) + quote_indices_from(
            a + b,
            a.len() as int,
        ),
    decreases a.len() - i,
{
    if i < a.len() {
        lemma_quotes_head(a, b, i + 1);
        assert((a + b)[i] == a[i]);
        if a[i] == 0x22 {
            assert(seq![i] + (quote_indices_from(a, i + 1) + quote_indices_from(
                a + b,
                a.len() as int,
            )) =~= (seq![i] + quote_indices_from(a, i + 1)) + quote_indices_from(
                a + b,
                a.len() as int,
            ));
        }
    } else {
        assert(quote_indices_from(a, i) == Seq::<int>::empty());
        assert(Seq::<int>::empty() + quote_indices_from(a + b, a.len() as int)
            =~= quote_indices_from(a + b, a.len() as int));
    }
}

/// Quote indices distribute over concatenation.
proof fn lemma_quotes_split(a: Seq<u8>, b: Seq<u8>)
    ensures
        quote_indices_from(a + b, 0) == quote_indices_from(a, 0) + quote_indices_from(
            b,
            0,
        ).map_values(|k: int| k + a.len()),
{
    lemma_quotes_head(a, b, 0);
    lemma_quotes_tail(a, b, 0);
}

/// A quote-free stretch contributes no quote indices.
proof fn lemma_quotes_absent(s: Seq<u8>, i: int)
    requires
        forall|k: int| 0 <= k < s.len() ==> #[trigger] s[k] != 0x22,
        0 <= i,
    ensures
        quote_indices_from(s, i) == Seq::<int>::empty(),
    decreases s.len() - i,
{
    if i < s.len() {
        lemma_quotes_absent(s, i + 1);
    }
}

/// The milli-unit decimal layout holds no quote byte.
proof fn lemma_dec3_no_quotes(v: int)
    requires
        v >= 0,
    ensures
        forall|k: int| 0 <= k < dec3(v).len() ==> #[trigger] dec3(v)[k] != 0x22,
{
    lemma_digits_round_trip(v / 1000);
    vstd::arithmetic::div_mod::lemma_mod_division_less_than_divisor(v, 10);
    vstd::arithmetic::div_mod::lemma_mod_division_less_than_divisor(v / 10, 10);
    vstd::arithmetic::div_mod::lemma_mod_division_less_than_divisor(v / 100, 10);
    assert forall|k: int| 0 <= k < dec3(v).len() implies #[trigger] dec3(v)[k] != 0x22 by {
        let rd = rec_digits(v / 1000);
        if k < rd.len() {
            assert(dec3(v)[k] == rd[k]);
            assert(48 <= rd[k] <= 57);
        } else {
            assert(dec3(v)[k] >= 46);
        }
    }
}

/// Quote indices of the `lit_open` segment.
proof fn lemma_quotes_lit_open()
    ensures
        quote_indices_from(lit_open(), 0) == seq![4int, 10, 13],
{
    reveal_with_fuel(quote_indices_from, 18);
    assert(quote_indices_from(lit_open(), 0) =~= seq![4int, 10, 13]);
}

/// Quote indices of the `lit_artist` segment.
proof fn lemma_quotes_lit_artist()
    ensures
        quote_indices_from(lit_artist(), 0) == seq![0int, 5, 12, 15],
{
    reveal_with_fuel(quote_indices_from, 18);
    assert(quote_indices_from(lit_artist(), 0) =~= seq![0int, 5, 12, 15]);
}

/// Quote indices of the `lit_bpm` segment.
proof fn lemma_quotes_lit_bpm()
    ensures
        quote_indices_from(lit_bpm(), 0) == seq![0int, 5, 9],
{
    reveal_with_fuel(quote_indices_from, 18);
    assert(quote_indices_from(lit_bpm(), 0) =~= seq![0int, 5, 9]);
}

/// Quote indices of the `lit_duration` segment.
proof fn lemma_quotes_lit_duration()
    ensures
        quote_indices_from(lit_duration(), 0) == seq![4int, 13],
{
    reveal_with_fuel(quote_indices_from, 18);
    assert(quote_indices_from(lit_duration(), 0) =~= seq![4int, 13]);
}

/// Quote indices of the `lit_key` segment.
proof fn lemma_quotes_lit_key()
    ensures
        quote_indices_from(lit_key(), 0) == seq![4int, 8, 11],
{
    reveal_with_fuel(quote_indices_from, 18);
    assert(quote_indices_from(lit_key(), 0) =~= seq![4int, 8, 11]);
}

/// Quote indices of the `lit_close` segment.
proof fn lemma_quotes_lit_close()
    ensures
        quote_indices_from(lit_close(), 0) == seq![0int],
{
    reveal_with_fuel(quote_indices_from, 18);
    assert(quote_indices_from(lit_close(), 0) =~= seq![0int]);
}

/// The canonical rendering of a well-formed record holds exactly sixteen
/// quotes, at positions fixed by the four field lengths.
#[verifier::rlimit(100)]
proof fn lemma_render_quotes(t: CachedTrack)
    requires
        t.wf(),
    ensures
        ({
            let tl = t.title@.len() as int;
            let al = t.artist@.len() as int;
            let bd = dec3(t.bpm_milli as int).len() as int;
            let dd = dec3(t.duration_ms as int).len() as int;
            let kl = t.key@.len() as int;
            quote_indices_from(render_spec(t), 0) == seq![
                4int,
                10,
                13,
                tl + 14,
                tl + 19,
                tl + 26,
                tl + 29,
                tl + al + 30,
                tl + al + 35,
                tl + al + 39,
                tl + al + bd + 46,
                tl + al + bd + 55,
                tl + al + bd + dd + 62,
                tl + al + bd + dd + 66,
                tl + al + bd + dd + 69,
                tl + al + bd + dd + kl + 70,
            ]
        }),
{
    let tl = t.title@.len() as int;
    let al = t.artist@.len() as int;
    let bd = dec3(t.bpm_milli as int).len() as int;
    let dd = dec3(t.duration_ms as int).len() as int;
    let kl = t.key@.len() as int;

    assert(forall|k: int| 0 <= k < t.title@.len() ==> #[trigger] t.title@[k] != 0x22);
    assert(forall|k: int| 0 <= k < t.artist@.len() ==> #[trigger] t.artist@[k] != 0x22);
    assert(forall|k: int| 0 <= k < t.key@.len() ==> #[trigger] t.key@[k] != 0x22);
    lemma_dec3_no_quotes(t.bpm_milli as int);
    lemma_dec3_no_quotes(t.duration_ms as int);

    let r10 = lit_close();
    let r9 = t.key@ + r10;
    let r8 = lit_key() + r9;
    let r7 = dec3(t.duration_ms as int) + r8;
    let r6 = lit_duration() + r7;
    let r5 = dec3(t.bpm_milli as int) + r6;
    let r4 = lit_bpm() + r5;
    let r3 = t.artist@ + r4;
    let r2 = lit_artist() + r3;
    let r1 = t.title@ + r2;
    let r0 = lit_open() + r1;
    assert(render_spec(t) =~= r0);

    lemma_quotes_lit_close();
    lemma_quotes_split(t.key@, r10);
    lemma_quotes_absent(t.key@, 0);
    assert(quote_indices_from(r9, 0) =~= seq![kl]);
    lemma_quotes_lit_key();
    lemma_quotes_split(lit_key(), r9);
    assert(quote_indices_from(r8, 0) =~= seq![4int, 8, 11, kl + 12]);
    lemma_quotes_split(dec3(t.duration_ms as int), r8);
    lemma_quotes_absent(dec3(t.duration_ms as int), 0);
    assert(quote_indices_from(r7, 0) =~= seq![dd + 4, dd + 8, dd + 11, dd + kl + 12]);
    lemma_quotes_lit_duration();
    lemma_quotes_split(lit_duration(), r7);
    assert(quote_indices_from(r6, 0) =~= seq![
        4int,
        13,
        dd + 20,
        dd + 24,
        dd + 27,
        dd + kl + 28,
    ]);
    lemma_quotes_split(dec3(t.bpm_milli as int), r6);
    lemma_quotes_absent(dec3(t.bpm_milli as int), 0);
    assert(quote_indices_from(r5, 0) =~= seq![
        bd + 4,
        bd + 13,
        bd + dd + 20,
        bd + dd + 24,
        bd + dd + 27,
        bd + dd + kl + 28,
    ]);
    lemma_quotes_lit_bpm();
    lemma_quotes_split(lit_bpm(), r5);
    assert(quote_indices_from(r4, 0) =~= seq![
        0int,
        5,
        9,
        bd + 16,
        bd + 25,
        bd + dd + 32,
        bd + dd + 36,
        bd + dd + 39,
        bd + dd + kl + 40,
    ]);
    lemma_quotes_split(t.artist@, r4);
    lemma_quotes_absent(t.artist@, 0);
    assert(quote_indices_from(r3, 0) =~= seq![
        al,
        al + 5,
        al + 9,
        al + bd + 16,
        al + bd + 25,
        al + bd + dd + 32,
        al + bd + dd + 36,
        al + bd + dd + 39,
        al + bd + dd + kl + 40,
    ]);
    lemma_quotes_lit_artist();
    lemma_quotes_split(lit_artist(), r3);
    assert(quote_indices_from(r2, 0) =~= seq![
        0int,
        5,
        12,
        15,
        al + 16,
        al + 21,
        al + 25,
        al + bd + 32,
        al + bd + 41,
        al + bd + dd + 48,
        al + bd + dd + 52,
        al + bd + dd + 55,
        al + bd + dd + kl + 56,
    ]);
    lemma_quotes_split(t.title@, r2);
    lemma_quotes_absent(t.title@, 0);
    assert(quote_indices_from(r1, 0) =~= seq![
        tl,
        tl + 5,
        tl + 12,
        tl + 15,
        tl + al + 16,
        tl + al + 21,
        tl + al + 25,
        tl + al + bd + 32,
        tl + al + bd + 41,
        tl + al + bd + dd + 48,
        tl + al + bd + dd + 52,
        tl + al + bd + dd + 55,
        tl + al + bd + dd + kl + 56,
    ]);
    lemma_quotes_lit_open();
    lemma_quotes_split(lit_open(), r1);
    assert(quote_indices_from(r0, 0) =~= seq![
        4int,
        10,
        13,
        tl + 14,
        tl + 19,
        tl + 26,
        tl + 29,
        tl + al + 30,
        tl + al + 35,
        tl + al + 39,
        tl + al + bd + 46,
        tl + al + bd + 55,
        tl + al + bd + dd + 62,
        tl + al + bd + dd + 66,
        tl + al + bd + dd + 69,
        tl + al + bd + dd + kl + 70,
    ]);
}

/// A digit string's value is nonnegative.
proof fn lemma_digits_val_nonneg(s: Seq<u8>)
    requires
        forall|i: int| 0 <= i < s.len() ==> 48 <= #[trigger] s[i] <= 57,
    ensures
        digits_val(s) >= 0,
    decreases s.len(),
{
    if s.len() > 0 {
        assert(forall|i: int|
            0 <= i < s.drop_last().len() ==> 48 <= #[trigger] s.drop_last()[i] <= 57);
        lemma_digits_val_nonneg(s.drop_last());
    }
}

/// A digit string's prefixes never exceed its value.
proof fn lemma_digits_prefix_le(s: Seq<u8>, k: int)
    requires
        forall|i: int| 0 <= i < s.len() ==> 48 <= #[trigger] s[i] <= 57,
        0 <= k <= s.len(),
    ensures
        0 <= digits_val(s.take(k)) <= digits_val(s),
    decreases s.len(),
{
    if k == s.len() {
        assert(s.take(k) =~= s);
        lemma_digits_val_nonneg(s);
    } else {
        let s0 = s.drop_last();
        assert(forall|i: int| 0 <= i < s0.len() ==> 48 <= #[trigger] s0[i] <= 57);
        assert(s.take(k) =~= s0.take(k));
        lemma_digits_prefix_le(s0, k);
        lemma_digits_val_nonneg(s0);
    }
}

/// The three fraction digits of a milli-unit value recover its remainder.
proof fn lemma_milli_digits(v: int)
    requires
        v >= 0,
    ensures
        (v / 100 % 10) * 100 + (v / 10 % 10) * 10 + v % 10 == v % 1000,
        0 <= v % 1000 < 1000,
{
    let q = v / 1000;
    let r = v % 1000;
    vstd::arithmetic::div_mod::lemma_fundamental_div_mod(v, 1000);
    vstd::arithmetic::div_mod::lemma_mod_division_less_than_divisor(v, 1000);
    vstd::arithmetic::div_mod::lemma_div_pos_is_pos(v, 1000);

    // v / 100 % 10 == r / 100
    vstd::arithmetic::div_mod::lemma_hoist_over_denominator(r, 10 * q, 100);
    assert(r / 100 + 10 * q == (r + (10 * q) * 100) / 100);
    assert(r + (10 * q) * 100 == v) by (nonlinear_arith)
        requires
            v == 1000 * q + r,
    ;
    vstd::arithmetic::div_mod::lemma_mod_multiples_vanish(q, r / 100, 10);
    vstd::arithmetic::div_mod::lemma_div_is_ordered(r, 999, 100);
    vstd::arithmetic::div_mod::lemma_div_pos_is_pos(r, 100);
    vstd::arithmetic::div_mod::lemma_small_mod((r / 100) as nat, 10);
    assert(v / 100 % 10 == r / 100);

    // v / 10 % 10 == r % 100 / 10
    let s = r % 100;
    vstd::arithmetic::div_mod::lemma_fundamental_div_mod(r, 100);
    vstd::arithmetic::div_mod::lemma_mod_division_less_than_divisor(r, 100);
    vstd::arithmetic::div_mod::lemma_hoist_over_denominator(s, 10 * (r / 100) + 100 * q, 10);
    assert(s / 10 + (10 * (r / 100) + 100 * q) == (s + (10 * (r / 100) + 100 * q) * 10) / 10);
    assert(s + (10 * (r / 100) + 100 * q) * 10 == v) by (nonlinear_arith)
        requires
            v == 1000 * q + r,
            r == 100 * (r / 100) + s,
    ;
    vstd::arithmetic::div_mod::lemma_mod_multiples_vanish(r / 100 + 10 * q, s / 10, 10);
    assert(10 * (r / 100 + 10 * q) + s / 10 == (10 * (r / 100) + 100 * q) + s / 10)
        by (nonlinear_arith);
    vstd::arithmetic::div_mod::lemma_div_is_ordered(s, 99, 10);
    vstd::arithmetic::div_mod::lemma_div_pos_is_pos(s, 10);
    vstd::arithmetic::div_mod::lemma_small_mod((s / 10) as nat, 10);
    assert(v / 10 % 10 == s / 10);

    // v % 10 == s % 10
    vstd::arithmetic::div_mod::lemma_mod_multiples_vanish(100 * q + 10 * (r / 100), s % 10, 10);
    vstd::arithmetic::div_mod::lemma_fundamental_div_mod(s, 10);
    assert(10 * (100 * q + 10 * (r / 100)) + (10 * (s / 10) + s % 10) == v) by (nonlinear_arith)
        requires
            v == 1000 * q + r,
            r == 100 * (r / 100) + s,
            s == 10 * (s / 10) + s % 10,
    ;
    assert(v == 10 * (100 * q + 10 * (r / 100) + s / 10) + s % 10) by (nonlinear_arith)
        requires
            10 * (100 * q + 10 * (r / 100)) + (10 * (s / 10) + s % 10) == v,
    ;
    vstd::arithmetic::div_mod::lemma_mod_multiples_vanish(
        100 * q + 10 * (r / 100) + s / 10,
        s % 10,
        10,
    );
    vstd::arithmetic::div_mod::lemma_mod_division_less_than_divisor(s, 10);
    vstd::arithmetic::div_mod::lemma_small_mod((s % 10) as nat, 10);
    assert(v % 10 == s % 10);

    assert((r / 100) * 100 + (s / 10) * 10 + s % 10 == r) by (nonlinear_arith)
        requires
            r == 100 * (r / 100) + s,
            s == 10 * (s / 10) + s % 10,
    ;
}

} // verus!
