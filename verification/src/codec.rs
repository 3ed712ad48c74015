//! A small self-describing binary columnar format for the two table
//! files of a result bundle.
//!
//! Integers are 8-byte little-endian words; strings are length-prefixed
//! UTF-8; optional columns carry a presence word.  Every decoder is
//! proved to invert its encoder exactly, which is what the bundle round
//! trip rests on.

use crate::model_points::ModelPoint;
use crate::projections::structs::{Date, MonthRow};
use vstd::prelude::*;
use vstd::utf8::{decode_utf8, encode_utf8, valid_utf8};

verus! {

/// The eight little-endian bytes of a 64-bit word.
pub open spec fn enc_u64(v: u64) -> Seq<u8> {
    seq![
        (v as nat % 256) as u8,
        (v as nat / 256 % 256) as u8,
        (v as nat / 65536 % 256) as u8,
        (v as nat / 16777216 % 256) as u8,
        (v as nat / 4294967296 % 256) as u8,
        (v as nat / 1099511627776 % 256) as u8,
        (v as nat / 281474976710656 % 256) as u8,
        (v as nat / 72057594037927936 % 256) as u8,
    ]
}

/// The word eight little-endian bytes hold.
pub open spec fn le_val(s: Seq<u8>, i: int) -> int {
    s[i] + s[i + 1] * 256 + s[i + 2] * 65536 + s[i + 3] * 16777216 + s[i + 4] * 4294967296 + s[i
        + 5] * 1099511627776 + s[i + 6] * 281474976710656 + s[i + 7] * 72057594037927936
}

/// Reads a 64-bit word.
pub open spec fn dec_u64(s: Seq<u8>, i: int) -> Option<(u64, int)> {
    if 0 <= i && i + 8 <= s.len() {
        Some(((le_val(s, i) % 0x1_0000_0000_0000_0000) as u64, i + 8))
    } else {
        None
    }
}

/// Reading eight encoded bytes gives the encoded word back.
pub proof fn lemma_u64_round_trip(s: Seq<u8>, i: int, v: u64)
    requires
        0 <= i,
        i + 8 <= s.len(),
        s.subrange(i, i + 8) == enc_u64(v),
    ensures
        dec_u64(s, i) == Some((v, i + 8)),
{
    assert forall|t: int| 0 <= t < 8 implies s[i + t] == enc_u64(v)[t] by {
        assert(s.subrange(i, i + 8)[t] == s[i + t]);
    }
    assert(s[i] == enc_u64(v)[0]);
    assert(s[i + 1] == enc_u64(v)[1]);
    assert(s[i + 2] == enc_u64(v)[2]);
    assert(s[i + 3] == enc_u64(v)[3]);
    assert(s[i + 4] == enc_u64(v)[4]);
    assert(s[i + 5] == enc_u64(v)[5]);
    assert(s[i + 6] == enc_u64(v)[6]);
    assert(s[i + 7] == enc_u64(v)[7]);
    let n = v as int;
    lemma_le_bytes_value(n);
    assert(le_val(s, i) == n);
}

/// The little-endian byte decomposition of a 64-bit value sums back to
/// the value.
pub proof fn lemma_le_bytes_value(n: int)
    requires
        0 <= n <= 0xffff_ffff_ffff_ffff,
    ensures
        n % 256 + (n / 256 % 256) * 256 + (n / 65536 % 256) * 65536 + (n / 16777216 % 256)
            * 16777216 + (n / 4294967296 % 256) * 4294967296 + (n / 1099511627776 % 256)
            * 1099511627776 + (n / 281474976710656 % 256) * 281474976710656 + (n
            / 72057594037927936 % 256) * 72057594037927936 == n,
{
    vstd::arithmetic::div_mod::lemma_fundamental_div_mod(n, 256);
    vstd::arithmetic::div_mod::lemma_div_denominator(n, 256, 256);
    vstd::arithmetic::div_mod::lemma_fundamental_div_mod(n / 256, 256);
    vstd::arithmetic::div_mod::lemma_div_denominator(n, 65536, 256);
    vstd::arithmetic::div_mod::lemma_fundamental_div_mod(n / 65536, 256);
    vstd::arithmetic::div_mod::lemma_div_denominator(n, 16777216, 256);
    vstd::arithmetic::div_mod::lemma_fundamental_div_mod(n / 16777216, 256);
    vstd::arithmetic::div_mod::lemma_div_denominator(n, 4294967296, 256);
    vstd::arithmetic::div_mod::lemma_fundamental_div_mod(n / 4294967296, 256);
    vstd::arithmetic::div_mod::lemma_div_denominator(n, 1099511627776, 256);
    vstd::arithmetic::div_mod::lemma_fundamental_div_mod(n / 1099511627776, 256);
    vstd::arithmetic::div_mod::lemma_div_denominator(n, 281474976710656, 256);
    vstd::arithmetic::div_mod::lemma_fundamental_div_mod(n / 281474976710656, 256);
    assert(n / 72057594037927936 < 256) by {
        vstd::arithmetic::div_mod::lemma_div_is_ordered(n, 0xffff_ffff_ffff_ffff, 72057594037927936);
    }
    vstd::arithmetic::div_mod::lemma_div_pos_is_pos(n, 72057594037927936);
    vstd::arithmetic::div_mod::lemma_small_mod((n / 72057594037927936) as nat, 256);
}

/// Writes a 64-bit word.
pub fn push_u64(out: &mut Vec<u8>, v: u64)
    ensures
        final(out)@ == old(out)@ + enc_u64(v),
{
    out.push((v % 256) as u8);
    out.push((v / 256 % 256) as u8);
    out.push((v / 65536 % 256) as u8);
    out.push((v / 16777216 % 256) as u8);
    out.push((v / 4294967296 % 256) as u8);
    out.push((v / 1099511627776 % 256) as u8);
    out.push((v / 281474976710656 % 256) as u8);
    out.push((v / 72057594037927936 % 256) as u8);
    proof {
        assert(out@ =~= old(out)@ + enc_u64(v));
    }
}

/// Reads a 64-bit word, executable form.
pub fn read_u64(s: &Vec<u8>, i: usize) -> (r: Option<(u64, usize)>)
    ensures
        r matches Some((v, j)) ==> dec_u64(s@, i as int) == Some((v, j as int)) && j <= s@.len(),
        r is None ==> dec_u64(s@, i as int) is None,
{
    let n = s.len();
    if !(i <= n && n - i >= 8) {
        return None;
    }
    let b0 = s[i] as u64;
    let b1 = s[i + 1] as u64;
    let b2 = s[i + 2] as u64;
    let b3 = s[i + 3] as u64;
    let b4 = s[i + 4] as u64;
    let b5 = s[i + 5] as u64;
    let b6 = s[i + 6] as u64;
    let b7 = s[i + 7] as u64;
    let v = b0 + b1 * 256 + b2 * 65536 + b3 * 16777216 + b4 * 4294967296 + b5 * 1099511627776 + b6
        * 281474976710656 + b7 * 72057594037927936;
    proof {
        assert(le_val(s@, i as int) < 0x1_0000_0000_0000_0000) by (nonlinear_arith)
            requires
                le_val(s@, i as int) == (s@[i as int] + s@[i as int + 1] * 256 + s@[i as int + 2]
                    * 65536 + s@[i as int + 3] * 16777216 + s@[i as int + 4] * 4294967296 + s@[i
                    as int + 5] * 1099511627776 + s@[i as int + 6] * 281474976710656 + s@[i as int
                    + 7] * 72057594037927936),
                s@[i as int] < 256,
                s@[i as int + 1] < 256,
                s@[i as int + 2] < 256,
                s@[i as int + 3] < 256,
                s@[i as int + 4] < 256,
                s@[i as int + 5] < 256,
                s@[i as int + 6] < 256,
                s@[i as int + 7] < 256,
        ;
    }
    Some((v, i + 8))
}

/// A signed word, stored as its two's-complement unsigned form.
pub open spec fn enc_i64(x: i64) -> Seq<u8> {
    enc_u64(x as u64)
}

/// Reads a signed word.
pub open spec fn dec_i64(s: Seq<u8>, i: int) -> Option<(i64, int)> {
    match dec_u64(s, i) {
        Some((v, j)) => Some((v as i64, j)),
        None => None,
    }
}

/// The two's-complement round trip on 64 bits.
pub proof fn lemma_i64_cast_round_trip(x: i64)
    ensures
        ((x as u64) as i64) == x,
{
    assert(((x as u64) as i64) == x) by (bit_vector);
}

pub proof fn lemma_i64_round_trip(s: Seq<u8>, i: int, x: i64)
    requires
        0 <= i,
        i + 8 <= s.len(),
        s.subrange(i, i + 8) == enc_i64(x),
    ensures
        dec_i64(s, i) == Some((x, i + 8)),
{
    lemma_u64_round_trip(s, i, x as u64);
    lemma_i64_cast_round_trip(x);
}

/// Writes a signed word.
pub fn push_i64(out: &mut Vec<u8>, x: i64)
    ensures
        final(out)@ == old(out)@ + enc_i64(x),
{
    proof {
        lemma_i64_cast_round_trip(x);
    }
    #[verifier::truncate]
    let v = x as u64;
    push_u64(out, v);
}

/// Reads a signed word, executable form.
pub fn read_i64(s: &Vec<u8>, i: usize) -> (r: Option<(i64, usize)>)
    ensures
        r matches Some((x, j)) ==> dec_i64(s@, i as int) == Some((x, j as int)) && j <= s@.len(),
        r is None ==> dec_i64(s@, i as int) is None,
{
    match read_u64(s, i) {
        Some((v, j)) => {
            #[verifier::truncate]
            let x = v as i64;
            Some((x, j))
        },
        None => None,
    }
}

/// A string: its UTF-8 byte length, then its UTF-8 bytes.
pub open spec fn enc_str(t: Seq<char>) -> Seq<u8> {
    enc_u64(encode_utf8(t).len() as u64) + encode_utf8(t)
}

/// Reads a string.
pub open spec fn dec_str(s: Seq<u8>, i: int) -> Option<(Seq<char>, int)> {
    match dec_u64(s, i) {
        Some((len, j)) => if j + len <= s.len() && valid_utf8(s.subrange(j, j + len)) {
            Some((decode_utf8(s.subrange(j, j + len)), j + len))
        } else {
            None
        },
        None => None,
    }
}

/// Reading an encoded string gives the characters back, provided the
/// encoded byte length fits the length prefix.
pub proof fn lemma_str_round_trip(s: Seq<u8>, i: int, t: Seq<char>)
    requires
        0 <= i,
        encode_utf8(t).len() <= u64::MAX,
        i + enc_str(t).len() <= s.len(),
        s.subrange(i, i + enc_str(t).len()) == enc_str(t),
    ensures
        dec_str(s, i) == Some((t, i + enc_str(t).len())),
{
    let bytes = encode_utf8(t);
    let bl = bytes.len() as int;
    assert(enc_str(t).len() == 8 + bl);
    assert forall|u: int| 0 <= u < 8 + bl implies s[i + u] == enc_str(t)[u] by {
        assert(s.subrange(i, i + enc_str(t).len())[u] == s[i + u]);
    }
    assert(s.subrange(i, i + 8) =~= enc_u64(bytes.len() as u64)) by {
        assert forall|u: int| 0 <= u < 8 implies #[trigger] s.subrange(i, i + 8)[u] == enc_u64(
            bytes.len() as u64,
        )[u] by {
            assert(s.subrange(i, i + 8)[u] == s[i + u]);
            assert(enc_str(t)[u] == enc_u64(bytes.len() as u64)[u]);
        }
    }
    lemma_u64_round_trip(s, i, bytes.len() as u64);
    assert(s.subrange(i + 8, i + 8 + bl) =~= bytes) by {
        assert forall|u: int| 0 <= u < bl implies s.subrange(i + 8, i + 8 + bl)[u] == bytes[u] by {
            assert(s.subrange(i + 8, i + 8 + bl)[u] == s[i + 8 + u]);
            assert(enc_str(t)[8 + u] == bytes[u]);
        }
    }
    broadcast use vstd::utf8::encode_utf8_valid_utf8;
    broadcast use vstd::utf8::encode_utf8_decode_utf8;

    assert(valid_utf8(s.subrange(i + 8, i + 8 + bl)));
    assert(decode_utf8(s.subrange(i + 8, i + 8 + bl)) == t);
}

/// Writes a string as length-prefixed UTF-8.
pub fn push_str_bytes(out: &mut Vec<u8>, t: &str)
    ensures
        final(out)@ == old(out)@ + enc_str(t@),
{
    let bytes = t.as_bytes();
    let blen = bytes.len();
    proof {
        vstd::string::is_ascii_spec_bytes(t);
    }
    push_u64(out, blen as u64);
    let mut k: usize = 0;
    while k < blen
        invariant
            k <= blen,
            blen == encode_utf8(t@).len(),
            bytes@ == encode_utf8(t@),
            out@ == old(out)@ + enc_u64(blen as u64) + encode_utf8(t@).take(k as int),
        decreases blen - k,
    {
        out.push(bytes[k]);
        proof {
            assert(encode_utf8(t@).take(k as int + 1) =~= encode_utf8(t@).take(k as int).push(
                encode_utf8(t@)[k as int],
            ));
            assert(out@ =~= old(out)@ + enc_u64(blen as u64) + encode_utf8(t@).take(k as int + 1));
        }
        k += 1;
    }
    proof {
        assert(encode_utf8(t@).take(blen as int) =~= encode_utf8(t@));
        assert(old(out)@ + enc_u64(blen as u64) + encode_utf8(t@) =~= old(out)@ + enc_str(t@));
    }
}

/// Relies on `String::from_utf8`: it succeeds exactly on valid UTF-8
/// and returns the string those bytes decode to.
#[verifier::external_body]
fn string_from_utf8(v: Vec<u8>) -> (r: Option<String>)
    ensures
        r is Some <==> valid_utf8(v@),
        r matches Some(s) ==> s@ == decode_utf8(v@),
{
    String::from_utf8(v).ok()
}

/// Reads a length-prefixed UTF-8 string, executable form.
pub fn read_str(s: &Vec<u8>, i: usize) -> (r: Option<(String, usize)>)
    ensures
        r matches Some((t, j)) ==> dec_str(s@, i as int) == Some((t@, j as int)) && j <= s@.len(),
        r is None ==> dec_str(s@, i as int) is None,
{
    let n = s.len();
    let (len, j) = match read_u64(s, i) {
        Some(p) => p,
        None => {
            return None;
        },
    };
    if !(len <= (n - j) as u64) {
        return None;
    }
    let end = j + len as usize;
    let mut bytes: Vec<u8> = Vec::new();
    let mut k = j;
    while k < end
        invariant
            j <= k <= end <= n,
            n == s@.len(),
            bytes@ == s@.subrange(j as int, k as int),
        decreases end - k,
    {
        bytes.push(s[k]);
        proof {
            assert(s@.subrange(j as int, k as int + 1) =~= s@.subrange(j as int, k as int).push(
                s@[k as int],
            ));
        }
        k += 1;
    }
    match string_from_utf8(bytes) {
        Some(t) => Some((t, end)),
        None => None,
    }
}

/// A concatenated region splits into its two parts.
pub proof fn lemma_split_region(s: Seq<u8>, i: int, a: Seq<u8>, b: Seq<u8>)
    requires
        0 <= i,
        i + a.len() + b.len() <= s.len(),
        s.subrange(i, i + a.len() + b.len()) == a + b,
    ensures
        s.subrange(i, i + a.len()) == a,
        s.subrange(i + a.len(), i + a.len() + b.len()) == b,
{
    let la = a.len() as int;
    let lb = b.len() as int;
    assert forall|t: int| 0 <= t < la + lb implies s[i + t] == (a + b)[t] by {
        assert(s.subrange(i, i + la + lb)[t] == s[i + t]);
    }
    assert(s.subrange(i, i + la) =~= a) by {
        assert forall|t: int| 0 <= t < la implies #[trigger] s.subrange(i, i + la)[t] == a[t] by {
            assert(s.subrange(i, i + la)[t] == s[i + t]);
        }
    }
    assert(s.subrange(i + la, i + la + lb) =~= b) by {
        assert forall|t: int| 0 <= t < lb implies #[trigger] s.subrange(i + la, i + la + lb)[t]
            == b[t] by {
            assert(s.subrange(i + la, i + la + lb)[t] == s[i + la + t]);
            assert((a + b)[la + t] == b[t]);
        }
    }
}

/// A sequence of signed words, one after another.
pub open spec fn enc_i64s(xs: Seq<i64>) -> Seq<u8>
    decreases xs.len(),
{
    if xs.len() == 0 {
        Seq::empty()
    } else {
        enc_i64(xs[0]) + enc_i64s(xs.drop_first())
    }
}

/// Reads `count` signed words.
pub open spec fn dec_i64s(s: Seq<u8>, i: int, count: nat) -> Option<(Seq<i64>, int)>
    decreases count,
{
    if count == 0 {
        Some((Seq::empty(), i))
    } else {
        match dec_i64(s, i) {
            Some((x, j)) => match dec_i64s(s, j, (count - 1) as nat) {
                Some((xs, j2)) => Some((seq![x] + xs, j2)),
                None => None,
            },
            None => None,
        }
    }
}

pub proof fn lemma_enc_i64s_len(xs: Seq<i64>)
    ensures
        enc_i64s(xs).len() == 8 * xs.len(),
    decreases xs.len(),
{
    if xs.len() > 0 {
        lemma_enc_i64s_len(xs.drop_first());
    }
}

/// Reading an encoded word sequence gives the words back.
pub proof fn lemma_i64s_round_trip(s: Seq<u8>, i: int, xs: Seq<i64>)
    requires
        0 <= i,
        i + enc_i64s(xs).len() <= s.len(),
        s.subrange(i, i + enc_i64s(xs).len()) == enc_i64s(xs),
    ensures
        dec_i64s(s, i, xs.len()) == Some((xs, i + enc_i64s(xs).len())),
    decreases xs.len(),
{
    if xs.len() == 0 {
    } else {
        let rest = xs.drop_first();
        lemma_enc_i64s_len(xs);
        lemma_enc_i64s_len(rest);
        lemma_split_region(s, i, enc_i64(xs[0]), enc_i64s(rest));
        lemma_i64_round_trip(s, i, xs[0]);
        lemma_i64s_round_trip(s, i + 8, rest);
        assert(seq![xs[0]] + rest =~= xs);
    }
}

/// Writes a vector of signed words.
pub fn push_i64s(out: &mut Vec<u8>, xs: &Vec<i64>)
    ensures
        final(out)@ == old(out)@ + enc_i64s(xs@),
{
    let n = xs.len();
    let mut k: usize = 0;
    proof {
        lemma_enc_i64s_prefix(xs@, 0);
        assert(out@ =~= out@ + enc_i64s(xs@.take(0)));
    }
    while k < n
        invariant
            k <= n,
            n == xs@.len(),
            out@ == old(out)@ + enc_i64s(xs@.take(k as int)),
        decreases n - k,
    {
        push_i64(out, xs[k]);
        proof {
            lemma_enc_i64s_snoc(xs@, k as int);
            assert(out@ =~= old(out)@ + enc_i64s(xs@.take(k as int + 1)));
        }
        k += 1;
    }
    proof {
        assert(xs@.take(n as int) =~= xs@);
    }
}

proof fn lemma_enc_i64s_prefix(xs: Seq<i64>, k: int)
    ensures
        enc_i64s(xs.take(0)) == Seq::<u8>::empty(),
{
    assert(xs.take(0) =~= Seq::<i64>::empty());
}

/// Word-sequence encoding extends on the right, one word at a time.
pub proof fn lemma_enc_i64s_snoc(xs: Seq<i64>, k: int)
    requires
        0 <= k < xs.len(),
    ensures
        enc_i64s(xs.take(k + 1)) == enc_i64s(xs.take(k)) + enc_i64(xs[k]),
    decreases k,
{
    if k == 0 {
        assert(xs.take(1)[0] == xs[0]);
        assert(xs.take(1).drop_first() =~= Seq::<i64>::empty());
        assert(xs.take(0) =~= Seq::<i64>::empty());
        assert(enc_i64s(xs.take(1)) =~= enc_i64s(xs.take(0)) + enc_i64(xs[0]));
    } else {
        let t = xs.drop_first();
        lemma_enc_i64s_snoc(t, k - 1);
        assert(xs.take(k + 1)[0] == xs[0]);
        assert(xs.take(k + 1).drop_first() =~= t.take(k));
        assert(xs.take(k)[0] == xs[0]);
        assert(xs.take(k).drop_first() =~= t.take(k - 1));
        assert(t[k - 1] == xs[k]);
        assert(enc_i64(xs[0]) + (enc_i64s(t.take(k - 1)) + enc_i64(xs[k])) =~= (enc_i64(xs[0])
            + enc_i64s(t.take(k - 1))) + enc_i64(xs[k]));
    }
}

/// Reads `count` signed words, executable form.
pub fn read_i64s(s: &Vec<u8>, i: usize, count: usize) -> (r: Option<(Vec<i64>, usize)>)
    requires
        i <= s@.len(),
    ensures
        r matches Some((xs, j)) ==> dec_i64s(s@, i as int, count as nat) == Some((xs@, j as int))
            && j <= s@.len() && xs@.len() == count,
        r is None ==> dec_i64s(s@, i as int, count as nat) is None,
{
    let mut out: Vec<i64> = Vec::new();
    let mut k: usize = 0;
    let mut pos = i;
    while k < count
        invariant
            k <= count,
            pos <= s@.len(),
            out@.len() == k,
            (match dec_i64s(s@, pos as int, (count - k) as nat) {
                Some((xs, j)) => dec_i64s(s@, i as int, count as nat) == Some((out@ + xs, j)),
                None => dec_i64s(s@, i as int, count as nat) is None,
            }),
        decreases count - k,
    {
        match read_i64(s, pos) {
            Some((x, j)) => {
                out.push(x);
                proof {
                    match dec_i64s(s@, j as int, (count - k - 1) as nat) {
                        Some((xs, j2)) => {
                            assert((out@.drop_last() + (seq![x] + xs)) =~= (out@ + xs));
                        },
                        None => {},
                    }
                }
                pos = j;
            },
            None => {
                return None;
            },
        }
        k += 1;
    }
    proof {
        assert(out@ + Seq::<i64>::empty() =~= out@);
    }
    Some((out, pos))
}

/// The 31 typed columns of one timeline row, in file order.
pub open spec fn row_words(r: MonthRow) -> Seq<i64> {
    seq![
        r.id,
        r.term,
        r.sum_insured,
        r.claim_pp,
        r.t,
        r.duration,
        r.age,
        r.mort_rate,
        r.lapse_rate,
        r.inf_rate,
        r.real_acq_exp_pp,
        r.real_mtn_exp_pp,
        r.spot_rate,
        r.load_rate,
        r.spot_rate_mth,
        r.discount_factor,
        r.inf_factor,
        r.real_exp_pp,
        r.exp_pp,
        r.mort_rate_mth,
        r.lapse_rate_mth,
        r.pols_if,
        r.pols_maturity,
        r.pols_death,
        r.pols_lapse,
        r.prem_pp,
        r.premiums,
        r.claims,
        r.expenses,
        r.commissions,
        r.net_cf,
    ]
}

/// A timeline row rebuilt from its 31 columns.
pub open spec fn row_of_words(ws: Seq<i64>) -> MonthRow {
    MonthRow {
        id: ws[0],
        term: ws[1],
        sum_insured: ws[2],
        claim_pp: ws[3],
        t: ws[4],
        duration: ws[5],
        age: ws[6],
        mort_rate: ws[7],
        lapse_rate: ws[8],
        inf_rate: ws[9],
        real_acq_exp_pp: ws[10],
        real_mtn_exp_pp: ws[11],
        spot_rate: ws[12],
        load_rate: ws[13],
        spot_rate_mth: ws[14],
        discount_factor: ws[15],
        inf_factor: ws[16],
        real_exp_pp: ws[17],
        exp_pp: ws[18],
        mort_rate_mth: ws[19],
        lapse_rate_mth: ws[20],
        pols_if: ws[21],
        pols_maturity: ws[22],
        pols_death: ws[23],
        pols_lapse: ws[24],
        prem_pp: ws[25],
        premiums: ws[26],
        claims: ws[27],
        expenses: ws[28],
        commissions: ws[29],
        net_cf: ws[30],
    }
}

/// One projected table row: its 31 columns as words.
pub open spec fn enc_month_row(r: MonthRow) -> Seq<u8> {
    enc_i64s(row_words(r))
}

/// Reads one projected table row.
pub open spec fn dec_month_row(s: Seq<u8>, i: int) -> Option<(MonthRow, int)> {
    match dec_i64s(s, i, 31) {
        Some((ws, j)) => Some((row_of_words(ws), j)),
        None => None,
    }
}

pub proof fn lemma_month_row_round_trip(s: Seq<u8>, i: int, r: MonthRow)
    requires
        0 <= i,
        i + enc_month_row(r).len() <= s.len(),
        s.subrange(i, i + enc_month_row(r).len()) == enc_month_row(r),
    ensures
        dec_month_row(s, i) == Some((r, i + enc_month_row(r).len())),
{
    lemma_i64s_round_trip(s, i, row_words(r));
    assert(row_of_words(row_words(r)) == r);
}

/// A projected table file: the row count, then the rows.
pub open spec fn enc_proj_rows(rows: Seq<MonthRow>) -> Seq<u8>
    decreases rows.len(),
{
    if rows.len() == 0 {
        Seq::empty()
    } else {
        enc_month_row(rows[0]) + enc_proj_rows(rows.drop_first())
    }
}

pub open spec fn enc_proj_table(rows: Seq<MonthRow>) -> Seq<u8> {
    enc_u64(rows.len() as u64) + enc_proj_rows(rows)
}

pub open spec fn dec_proj_rows(s: Seq<u8>, i: int, count: nat) -> Option<(Seq<MonthRow>, int)>
    decreases count,
{
    if count == 0 {
        Some((Seq::empty(), i))
    } else {
        match dec_month_row(s, i) {
            Some((r, j)) => match dec_proj_rows(s, j, (count - 1) as nat) {
                Some((rs, j2)) => Some((seq![r] + rs, j2)),
                None => None,
            },
            None => None,
        }
    }
}

/// Reads a whole projected table file: the count, the rows, and nothing
/// left over.
pub open spec fn dec_proj_table(s: Seq<u8>) -> Option<Seq<MonthRow>> {
    match dec_u64(s, 0) {
        Some((count, j)) => match dec_proj_rows(s, j, count as nat) {
            Some((rs, j2)) => if j2 == s.len() {
                Some(rs)
            } else {
                None
            },
            None => None,
        },
        None => None,
    }
}

pub proof fn lemma_enc_proj_rows_len(rows: Seq<MonthRow>)
    ensures
        enc_proj_rows(rows).len() == 248 * rows.len(),
    decreases rows.len(),
{
    if rows.len() > 0 {
        lemma_enc_i64s_len(row_words(rows[0]));
        lemma_enc_proj_rows_len(rows.drop_first());
    }
}

pub proof fn lemma_proj_rows_round_trip(s: Seq<u8>, i: int, rows: Seq<MonthRow>)
    requires
        0 <= i,
        i + enc_proj_rows(rows).len() <= s.len(),
        s.subrange(i, i + enc_proj_rows(rows).len()) == enc_proj_rows(rows),
    ensures
        dec_proj_rows(s, i, rows.len()) == Some((rows, i + enc_proj_rows(rows).len())),
    decreases rows.len(),
{
    if rows.len() > 0 {
        let rest = rows.drop_first();
        lemma_enc_i64s_len(row_words(rows[0]));
        lemma_enc_proj_rows_len(rest);
        lemma_split_region(s, i, enc_month_row(rows[0]), enc_proj_rows(rest));
        lemma_month_row_round_trip(s, i, rows[0]);
        lemma_proj_rows_round_trip(s, i + 248, rest);
        assert(seq![rows[0]] + rest =~= rows);
    }
}

/// Law: decoding inverts encoding for a whole projected table file.
pub proof fn lemma_proj_table_round_trip(rows: Seq<MonthRow>)
    requires
        rows.len() <= u64::MAX,
    ensures
        dec_proj_table(enc_proj_table(rows)) == Some(rows),
{
    let s = enc_proj_table(rows);
    lemma_enc_proj_rows_len(rows);
    assert(s.subrange(0, s.len() as int) =~= s);
    lemma_split_region(s, 0, enc_u64(rows.len() as u64), enc_proj_rows(rows));
    lemma_u64_round_trip(s, 0, rows.len() as u64);
    lemma_proj_rows_round_trip(s, 8, rows);
}

/// Writes a whole projected table file.
#[verifier::rlimit(50)]
pub fn encode_proj_table(rows: &Vec<MonthRow>) -> (r: Vec<u8>)
    requires
        248 * rows@.len() + 8 <= usize::MAX,
    ensures
        r@ == enc_proj_table(rows@),
{
    let mut out: Vec<u8> = Vec::new();
    push_u64(&mut out, rows.len() as u64);
    let n = rows.len();
    let mut k: usize = 0;
    proof {
        assert(rows@.take(0) =~= Seq::<MonthRow>::empty());
        assert(out@ =~= enc_u64(rows@.len() as u64) + enc_proj_rows(rows@.take(0)));
    }
    while k < n
        invariant
            k <= n,
            n == rows@.len(),
            out@ == enc_u64(rows@.len() as u64) + enc_proj_rows(rows@.take(k as int)),
        decreases n - k,
    {
        let row = rows[k];
        let words: Vec<i64> = vec![
            row.id,
            row.term,
            row.sum_insured,
            row.claim_pp,
            row.t,
            row.duration,
            row.age,
            row.mort_rate,
            row.lapse_rate,
            row.inf_rate,
            row.real_acq_exp_pp,
            row.real_mtn_exp_pp,
            row.spot_rate,
            row.load_rate,
            row.spot_rate_mth,
            row.discount_factor,
            row.inf_factor,
            row.real_exp_pp,
            row.exp_pp,
            row.mort_rate_mth,
            row.lapse_rate_mth,
            row.pols_if,
            row.pols_maturity,
            row.pols_death,
            row.pols_lapse,
            row.prem_pp,
            row.premiums,
            row.claims,
            row.expenses,
            row.commissions,
            row.net_cf,
        ];
        proof {
            assert(words@ =~= row_words(rows@[k as int]));
        }
        push_i64s(&mut out, &words);
        proof {
            lemma_proj_rows_snoc(rows@, k as int);
            assert(out@ =~= enc_u64(rows@.len() as u64) + enc_proj_rows(rows@.take(k as int + 1)));
        }
        k += 1;
    }
    proof {
        assert(rows@.take(n as int) =~= rows@);
    }
    out
}

/// Projected-row encoding extends on the right, one row at a time.
pub proof fn lemma_proj_rows_snoc(rows: Seq<MonthRow>, k: int)
    requires
        0 <= k < rows.len(),
    ensures
        enc_proj_rows(rows.take(k + 1)) == enc_proj_rows(rows.take(k)) + enc_month_row(rows[k]),
    decreases k,
{
    if k == 0 {
        assert(rows.take(1)[0] == rows[0]);
        assert(rows.take(1).drop_first() =~= Seq::<MonthRow>::empty());
        assert(rows.take(0) =~= Seq::<MonthRow>::empty());
        assert(enc_proj_rows(rows.take(1)) =~= enc_proj_rows(rows.take(0)) + enc_month_row(
            rows[0],
        ));
    } else {
        let t = rows.drop_first();
        lemma_proj_rows_snoc(t, k - 1);
        assert(rows.take(k + 1)[0] == rows[0]);
        assert(rows.take(k + 1).drop_first() =~= t.take(k));
        assert(rows.take(k)[0] == rows[0]);
        assert(rows.take(k).drop_first() =~= t.take(k - 1));
        assert(t[k - 1] == rows[k]);
        assert(enc_month_row(rows[0]) + (enc_proj_rows(t.take(k - 1)) + enc_month_row(rows[k]))
            =~= (enc_month_row(rows[0]) + enc_proj_rows(t.take(k - 1))) + enc_month_row(rows[k]));
    }
}

/// Reads a whole projected table file, executable form.
#[verifier::rlimit(50)]
pub fn decode_proj_table(s: &Vec<u8>) -> (r: Option<Vec<MonthRow>>)
    ensures
        r matches Some(rows) ==> dec_proj_table(s@) == Some(rows@),
        r is None ==> dec_proj_table(s@) is None,
{
    let (count, j0) = match read_u64(s, 0) {
        Some(p) => p,
        None => {
            return None;
        },
    };
    let mut out: Vec<MonthRow> = Vec::new();
    let mut k: u64 = 0;
    let mut pos = j0;
    while k < count
        invariant
            k <= count,
            pos <= s@.len(),
            out@.len() == k,
            dec_u64(s@, 0) == Some((count, j0 as int)),
            (match dec_proj_rows(s@, pos as int, (count - k) as nat) {
                Some((rs, j)) => dec_proj_rows(s@, j0 as int, count as nat) == Some((out@ + rs, j)),
                None => dec_proj_rows(s@, j0 as int, count as nat) is None,
            }),
        decreases count - k,
    {
        let (words, j) = match read_i64s(s, pos, 31) {
            Some(p) => p,
            None => {
                return None;
            },
        };
        let row = MonthRow {
            id: words[0],
            term: words[1],
            sum_insured: words[2],
            claim_pp: words[3],
            t: words[4],
            duration: words[5],
            age: words[6],
            mort_rate: words[7],
            lapse_rate: words[8],
            inf_rate: words[9],
            real_acq_exp_pp: words[10],
            real_mtn_exp_pp: words[11],
            spot_rate: words[12],
            load_rate: words[13],
            spot_rate_mth: words[14],
            discount_factor: words[15],
            inf_factor: words[16],
            real_exp_pp: words[17],
            exp_pp: words[18],
            mort_rate_mth: words[19],
            lapse_rate_mth: words[20],
            pols_if: words[21],
            pols_maturity: words[22],
            pols_death: words[23],
            pols_lapse: words[24],
            prem_pp: words[25],
            premiums: words[26],
            claims: words[27],
            expenses: words[28],
            commissions: words[29],
            net_cf: words[30],
        };
        out.push(row);
        proof {
            assert(row == row_of_words(words@));
            match dec_proj_rows(s@, j as int, (count - k - 1) as nat) {
                Some((rs, j2)) => {
                    assert((out@.drop_last() + (seq![row] + rs)) =~= (out@ + rs));
                },
                None => {},
            }
        }
        pos = j;
        k += 1;
    }
    proof {
        assert(out@ + Seq::<MonthRow>::empty() =~= out@);
    }
    if !(pos == s.len()) {
        return None;
    }
    Some(out)
}

/// The abstract content of one raw model-point record: what a
/// round-tripped record must preserve.
pub struct MpV {
    pub model: Seq<char>,
    pub id: int,
    pub entry_age: int,
    pub gender: Seq<char>,
    pub term: int,
    pub policy_count: int,
    pub sum_insured: int,
    pub duration_mth: Option<int>,
    pub issue_date: Option<(int, int, int)>,
    pub payment_freq: Option<int>,
    pub payment_term: Option<int>,
}

/// The abstract content of a raw record.
pub open spec fn mp_view(mp: ModelPoint) -> MpV {
    MpV {
        model: mp.model@,
        id: mp.id as int,
        entry_age: mp.entry_age as int,
        gender: mp.gender@,
        term: mp.term as int,
        policy_count: mp.policy_count as int,
        sum_insured: mp.sum_insured as int,
        duration_mth: match mp.duration_mth {
            Some(v) => Some(v as int),
            None => None,
        },
        issue_date: match mp.issue_date {
            Some(d) => Some((d.year as int, d.month as int, d.day as int)),
            None => None,
        },
        payment_freq: match mp.payment_freq {
            Some(v) => Some(v as int),
            None => None,
        },
        payment_term: match mp.payment_term {
            Some(v) => Some(v as int),
            None => None,
        },
    }
}

/// An optional 32-bit column as a presence word and a value word.
pub open spec fn opt_words(o: Option<i32>) -> Seq<i64> {
    match o {
        Some(v) => seq![1i64, v as i64],
        None => seq![0i64, 0i64],
    }
}

/// An optional date column as a presence word and three value words.
pub open spec fn date_words(o: Option<Date>) -> Seq<i64> {
    match o {
        Some(d) => seq![1i64, d.year as i64, d.month as i64, d.day as i64],
        None => seq![0i64, 0i64, 0i64, 0i64],
    }
}

/// The 15 numeric words of one raw record, in file order.
pub open spec fn mp_words(mp: ModelPoint) -> Seq<i64> {
    seq![
        mp.id as i64,
        mp.entry_age as i64,
        mp.term as i64,
        mp.policy_count,
        mp.sum_insured,
    ] + opt_words(mp.duration_mth) + date_words(mp.issue_date) + opt_words(mp.payment_freq)
        + opt_words(mp.payment_term)
}

/// Rebuilds an optional 32-bit column from its two words, rejecting
/// malformed presence flags and out-of-range values.
pub open spec fn opt_of_words(flag: i64, v: i64) -> Option<Option<int>> {
    if flag == 0 && v == 0 {
        Some(None)
    } else if flag == 1 && i32::MIN <= v <= i32::MAX {
        Some(Some(v as int))
    } else {
        None
    }
}

/// Rebuilds an optional date column from its four words.
pub open spec fn date_of_words(flag: i64, y: i64, m: i64, d: i64) -> Option<
    Option<(int, int, int)>,
> {
    if flag == 0 && y == 0 && m == 0 && d == 0 {
        Some(None)
    } else if flag == 1 && i32::MIN <= y <= i32::MAX && 0 <= m <= 255 && 0 <= d <= 255 {
        Some(Some((y as int, m as int, d as int)))
    } else {
        None
    }
}

/// Rebuilds a record's content from its strings and 15 words.
pub open spec fn mp_of_words(model: Seq<char>, gender: Seq<char>, ws: Seq<i64>) -> Option<MpV> {
    if !(i32::MIN <= ws[0] <= i32::MAX && i32::MIN <= ws[1] <= i32::MAX && i32::MIN <= ws[2]
        <= i32::MAX) {
        None
    } else {
        match (opt_of_words(ws[5], ws[6]), date_of_words(ws[7], ws[8], ws[9], ws[10]),
        opt_of_words(ws[11], ws[12]), opt_of_words(ws[13], ws[14])) {
            (Some(dur), Some(idate), Some(pfreq), Some(pterm)) => Some(
                MpV {
                    model,
                    id: ws[0] as int,
                    entry_age: ws[1] as int,
                    gender,
                    term: ws[2] as int,
                    policy_count: ws[3] as int,
                    sum_insured: ws[4] as int,
                    duration_mth: dur,
                    issue_date: idate,
                    payment_freq: pfreq,
                    payment_term: pterm,
                },
            ),
            _ => None,
        }
    }
}

/// One raw record: its two strings, then its 15 numeric words.
pub open spec fn enc_mp(mp: ModelPoint) -> Seq<u8> {
    enc_str(mp.model@) + enc_str(mp.gender@) + enc_i64s(mp_words(mp))
}

/// Reads one raw record.
pub open spec fn dec_mp(s: Seq<u8>, i: int) -> Option<(MpV, int)> {
    match dec_str(s, i) {
        Some((model, j)) => match dec_str(s, j) {
            Some((gender, j2)) => match dec_i64s(s, j2, 15) {
                Some((ws, j3)) => match mp_of_words(model, gender, ws) {
                    Some(v) => Some((v, j3)),
                    None => None,
                },
                None => None,
            },
            None => None,
        },
        None => None,
    }
}

/// Reading an encoded record gives its content back.
#[verifier::rlimit(100)]
#[verifier::spinoff_prover]
pub proof fn lemma_mp_round_trip(s: Seq<u8>, i: int, mp: ModelPoint)
    requires
        0 <= i,
        encode_utf8(mp.model@).len() <= u64::MAX,
        encode_utf8(mp.gender@).len() <= u64::MAX,
        i + enc_mp(mp).len() <= s.len(),
        s.subrange(i, i + enc_mp(mp).len()) == enc_mp(mp),
    ensures
        dec_mp(s, i) == Some((mp_view(mp), i + enc_mp(mp).len())),
{
    let a = enc_str(mp.model@);
    let b = enc_str(mp.gender@);
    let c = enc_i64s(mp_words(mp));
    assert(a + b + c =~= a + (b + c));
    lemma_split_region(s, i, a, b + c);
    lemma_split_region(s, i + a.len(), b, c);
    lemma_str_round_trip(s, i, mp.model@);
    lemma_str_round_trip(s, i + a.len(), mp.gender@);
    lemma_i64s_round_trip(s, i + a.len() + b.len(), mp_words(mp));
    lemma_enc_i64s_len(mp_words(mp));
    let ws = mp_words(mp);
    assert(ws.len() == 15);
    match mp.duration_mth {
        Some(v) => {
            assert(opt_of_words(ws[5], ws[6]) == Some(Some(v as int)));
        },
        None => {
            assert(opt_of_words(ws[5], ws[6]) == Some(None::<int>));
        },
    }
    match mp.issue_date {
        Some(d) => {
            assert(date_of_words(ws[7], ws[8], ws[9], ws[10]) == Some(
                Some((d.year as int, d.month as int, d.day as int)),
            ));
        },
        None => {
            assert(date_of_words(ws[7], ws[8], ws[9], ws[10]) == Some(None::<(int, int, int)>));
        },
    }
    assert(mp_of_words(mp.model@, mp.gender@, ws) == Some(mp_view(mp)));
}

/// The record contents of a whole table, in order.
pub open spec fn mp_views(rows: Seq<ModelPoint>) -> Seq<MpV> {
    Seq::new(rows.len(), (|i: int| mp_view(rows[i])))
}

pub open spec fn enc_mp_rows(rows: Seq<ModelPoint>) -> Seq<u8>
    decreases rows.len(),
{
    if rows.len() == 0 {
        Seq::empty()
    } else {
        enc_mp(rows[0]) + enc_mp_rows(rows.drop_first())
    }
}

/// A model-point table file: the record count, then the records.
pub open spec fn enc_mp_table(rows: Seq<ModelPoint>) -> Seq<u8> {
    enc_u64(rows.len() as u64) + enc_mp_rows(rows)
}

pub open spec fn dec_mp_rows(s: Seq<u8>, i: int, count: nat) -> Option<(Seq<MpV>, int)>
    decreases count,
{
    if count == 0 {
        Some((Seq::empty(), i))
    } else {
        match dec_mp(s, i) {
            Some((v, j)) => match dec_mp_rows(s, j, (count - 1) as nat) {
                Some((vs, j2)) => Some((seq![v] + vs, j2)),
                None => None,
            },
            None => None,
        }
    }
}

/// Reads a whole model-point table file: the count, the records, and
/// nothing left over.
pub open spec fn dec_mp_table(s: Seq<u8>) -> Option<Seq<MpV>> {
    match dec_u64(s, 0) {
        Some((count, j)) => match dec_mp_rows(s, j, count as nat) {
            Some((vs, j2)) => if j2 == s.len() {
                Some(vs)
            } else {
                None
            },
            None => None,
        },
        None => None,
    }
}

/// Whether a table's strings are small enough for their length prefixes.
pub open spec fn mp_strs_fit(rows: Seq<ModelPoint>) -> bool {
    forall|k: int|
        0 <= k < rows.len() ==> encode_utf8((#[trigger] rows[k]).model@).len() <= u64::MAX
            && encode_utf8(rows[k].gender@).len() <= u64::MAX
}

pub proof fn lemma_mp_rows_round_trip(s: Seq<u8>, i: int, rows: Seq<ModelPoint>)
    requires
        0 <= i,
        mp_strs_fit(rows),
        i + enc_mp_rows(rows).len() <= s.len(),
        s.subrange(i, i + enc_mp_rows(rows).len()) == enc_mp_rows(rows),
    ensures
        dec_mp_rows(s, i, rows.len()) == Some((mp_views(rows), i + enc_mp_rows(rows).len())),
    decreases rows.len(),
{
    if rows.len() == 0 {
        assert(mp_views(rows) =~= Seq::<MpV>::empty());
    } else {
        let rest = rows.drop_first();
        lemma_split_region(s, i, enc_mp(rows[0]), enc_mp_rows(rest));
        lemma_mp_round_trip(s, i, rows[0]);
        assert forall|k: int| 0 <= k < rest.len() implies encode_utf8(
            (#[trigger] rest[k]).model@,
        ).len() <= u64::MAX && encode_utf8(rest[k].gender@).len() <= u64::MAX by {
            assert(rest[k] == rows[k + 1]);
        }
        lemma_mp_rows_round_trip(s, i + enc_mp(rows[0]).len(), rest);
        assert(seq![mp_view(rows[0])] + mp_views(rest) =~= mp_views(rows));
    }
}

/// Law: decoding inverts encoding for a whole model-point table file.
pub proof fn lemma_mp_table_round_trip(rows: Seq<ModelPoint>)
    requires
        rows.len() <= u64::MAX,
        mp_strs_fit(rows),
    ensures
        dec_mp_table(enc_mp_table(rows)) == Some(mp_views(rows)),
{
    let s = enc_mp_table(rows);
    assert(s.subrange(0, s.len() as int) =~= s);
    lemma_split_region(s, 0, enc_u64(rows.len() as u64), enc_mp_rows(rows));
    lemma_u64_round_trip(s, 0, rows.len() as u64);
    lemma_mp_rows_round_trip(s, 8, rows);
}

/// Writes a whole model-point table file.
#[verifier::rlimit(80)]
pub fn encode_mp_table(rows: &Vec<ModelPoint>) -> (r: Vec<u8>)
    ensures
        r@ == enc_mp_table(rows@),
{
    let mut out: Vec<u8> = Vec::new();
    push_u64(&mut out, rows.len() as u64);
    let n = rows.len();
    let mut k: usize = 0;
    proof {
        assert(rows@.take(0) =~= Seq::<ModelPoint>::empty());
        assert(out@ =~= enc_u64(rows@.len() as u64) + enc_mp_rows(rows@.take(0)));
    }
    while k < n
        invariant
            k <= n,
            n == rows@.len(),
            out@ == enc_u64(rows@.len() as u64) + enc_mp_rows(rows@.take(k as int)),
        decreases n - k,
    {
        let row = &rows[k];
        push_str_bytes(&mut out, row.model.as_str());
        push_str_bytes(&mut out, row.gender.as_str());
        let w0: i64 = row.id as i64;
        let w1: i64 = row.entry_age as i64;
        let w2: i64 = row.term as i64;
        let (d_flag, d_val): (i64, i64) = match row.duration_mth {
            Some(v) => (1, v as i64),
            None => (0, 0),
        };
        let (i_flag, i_y, i_m, i_d): (i64, i64, i64, i64) = match row.issue_date {
            Some(d) => (1, d.year as i64, d.month as i64, d.day as i64),
            None => (0, 0, 0, 0),
        };
        let (f_flag, f_val): (i64, i64) = match row.payment_freq {
            Some(v) => (1, v as i64),
            None => (0, 0),
        };
        let (t_flag, t_val): (i64, i64) = match row.payment_term {
            Some(v) => (1, v as i64),
            None => (0, 0),
        };
        let words: Vec<i64> = vec![
            w0,
            w1,
            w2,
            row.policy_count,
            row.sum_insured,
            d_flag,
            d_val,
            i_flag,
            i_y,
            i_m,
            i_d,
            f_flag,
            f_val,
            t_flag,
            t_val,
        ];
        proof {
            assert(words@ =~= mp_words(rows@[k as int]));
        }
        push_i64s(&mut out, &words);
        proof {
            lemma_mp_rows_snoc(rows@, k as int);
            assert(out@ =~= enc_u64(rows@.len() as u64) + enc_mp_rows(rows@.take(k as int + 1)));
        }
        k += 1;
    }
    proof {
        assert(rows@.take(n as int) =~= rows@);
    }
    out
}

/// Record encoding extends on the right, one record at a time.
pub proof fn lemma_mp_rows_snoc(rows: Seq<ModelPoint>, k: int)
    requires
        0 <= k < rows.len(),
    ensures
        enc_mp_rows(rows.take(k + 1)) == enc_mp_rows(rows.take(k)) + enc_mp(rows[k]),
    decreases k,
{
    if k == 0 {
        assert(rows.take(1)[0] == rows[0]);
        assert(rows.take(1).drop_first() =~= Seq::<ModelPoint>::empty());
        assert(rows.take(0) =~= Seq::<ModelPoint>::empty());
        assert(enc_mp_rows(rows.take(1)) =~= enc_mp_rows(rows.take(0)) + enc_mp(rows[0]));
    } else {
        let t = rows.drop_first();
        lemma_mp_rows_snoc(t, k - 1);
        assert(rows.take(k + 1)[0] == rows[0]);
        assert(rows.take(k + 1).drop_first() =~= t.take(k));
        assert(rows.take(k)[0] == rows[0]);
        assert(rows.take(k).drop_first() =~= t.take(k - 1));
        assert(t[k - 1] == rows[k]);
        assert(enc_mp(rows[0]) + (enc_mp_rows(t.take(k - 1)) + enc_mp(rows[k])) =~= (enc_mp(
            rows[0],
        ) + enc_mp_rows(t.take(k - 1))) + enc_mp(rows[k]));
    }
}

/// Reads a whole model-point table file, executable form.
#[verifier::rlimit(50)]
pub fn decode_mp_table(s: &Vec<u8>) -> (r: Option<Vec<ModelPoint>>)
    ensures
        r matches Some(rows) ==> dec_mp_table(s@) == Some(mp_views(rows@)),
        r is None ==> dec_mp_table(s@) is None,
{
    let (count, j0) = match read_u64(s, 0) {
        Some(p) => p,
        None => {
            return None;
        },
    };
    let mut out: Vec<ModelPoint> = Vec::new();
    let mut k: u64 = 0;
    let mut pos = j0;
    while k < count
        invariant
            k <= count,
            pos <= s@.len(),
            out@.len() == k,
            dec_u64(s@, 0) == Some((count, j0 as int)),
            (match dec_mp_rows(s@, pos as int, (count - k) as nat) {
                Some((vs, j)) => dec_mp_rows(s@, j0 as int, count as nat) == Some(
                    (mp_views(out@) + vs, j),
                ),
                None => dec_mp_rows(s@, j0 as int, count as nat) is None,
            }),
        decreases count - k,
    {
        let (model, j1) = match read_str(s, pos) {
            Some(p) => p,
            None => {
                return None;
            },
        };
        let (gender, j2) = match read_str(s, j1) {
            Some(p) => p,
            None => {
                return None;
            },
        };
        let (words, j3) = match read_i64s(s, j2, 15) {
            Some(p) => p,
            None => {
                return None;
            },
        };
        if !(i32::MIN as i64 <= words[0] && words[0] <= i32::MAX as i64 && i32::MIN as i64
            <= words[1] && words[1] <= i32::MAX as i64 && i32::MIN as i64 <= words[2] && words[2]
            <= i32::MAX as i64) {
            return None;
        }
        let duration_mth: Option<i32> = if words[5] == 0 && words[6] == 0 {
            None
        } else if words[5] == 1 && i32::MIN as i64 <= words[6] && words[6] <= i32::MAX as i64 {
            Some(words[6] as i32)
        } else {
            return None;
        };
        let issue_date: Option<Date> = if words[7] == 0 && words[8] == 0 && words[9] == 0
            && words[10] == 0 {
            None
        } else if words[7] == 1 && i32::MIN as i64 <= words[8] && words[8] <= i32::MAX as i64 && 0
            <= words[9] && words[9] <= 255 && 0 <= words[10] && words[10] <= 255 {
            Some(Date { year: words[8] as i32, month: words[9] as u8, day: words[10] as u8 })
        } else {
            return None;
        };
        let payment_freq: Option<i32> = if words[11] == 0 && words[12] == 0 {
            None
        } else if words[11] == 1 && i32::MIN as i64 <= words[12] && words[12] <= i32::MAX as i64 {
            Some(words[12] as i32)
        } else {
            return None;
        };
        let payment_term: Option<i32> = if words[13] == 0 && words[14] == 0 {
            None
        } else if words[13] == 1 && i32::MIN as i64 <= words[14] && words[14] <= i32::MAX as i64 {
            Some(words[14] as i32)
        } else {
            return None;
        };
        let mp = ModelPoint {
            model,
            id: words[0] as i32,
            entry_age: words[1] as i32,
            gender,
            term: words[2] as i32,
            policy_count: words[3],
            sum_insured: words[4],
            duration_mth,
            issue_date,
            payment_freq,
            payment_term,
        };
        proof {
            assert(mp_of_words(mp.model@, mp.gender@, words@) == Some(mp_view(mp)));
        }
        out.push(mp);
        proof {
            match dec_mp_rows(s@, j3 as int, (count - k - 1) as nat) {
                Some((vs, j4)) => {
                    assert(mp_views(out@) =~= mp_views(out@.drop_last()).push(
                        mp_view(out@.last()),
                    ));
                    assert((mp_views(out@.drop_last()) + (seq![mp_view(out@.last())] + vs)) =~= (
                    mp_views(out@) + vs));
                },
                None => {
                    assert(mp_views(out@) =~= mp_views(out@.drop_last()).push(
                        mp_view(out@.last()),
                    ));
                },
            }
        }
        pos = j3;
        k += 1;
    }
    proof {
        assert(mp_views(out@) + Seq::<MpV>::empty() =~= mp_views(out@));
    }
    if !(pos == s.len()) {
        return None;
    }
    Some(out)
}

} // verus!
