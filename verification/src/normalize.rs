//! Contrast normalization: rescales an image's channel values so that the
//! single global minimum and maximum across all channels of all pixels
//! become 0 and 255.  A perfectly flat image, where the rescaling would
//! divide by zero, is returned unchanged.

use crate::pixel::PixelBuffer;
use vstd::prelude::*;

verus! {

/// The least value in a non-empty byte sequence.
pub open spec fn seq_min(s: Seq<u8>) -> u8
    recommends
        s.len() > 0,
    decreases s.len(),
{
    if s.len() <= 1 {
        s[0]
    } else if s.last() < seq_min(s.drop_last()) {
        s.last()
    } else {
        seq_min(s.drop_last())
    }
}

/// The greatest value in a non-empty byte sequence.
pub open spec fn seq_max(s: Seq<u8>) -> u8
    recommends
        s.len() > 0,
    decreases s.len(),
{
    if s.len() <= 1 {
        s[0]
    } else if s.last() > seq_max(s.drop_last()) {
        s.last()
    } else {
        seq_max(s.drop_last())
    }
}

pub proof fn lemma_seq_min_le(s: Seq<u8>, i: int)
    requires
        0 <= i < s.len(),
    ensures
        seq_min(s) <= s[i],
    decreases s.len(),
{
    if s.len() > 1 && i < s.len() - 1 {
        lemma_seq_min_le(s.drop_last(), i);
    }
}

pub proof fn lemma_seq_max_ge(s: Seq<u8>, i: int)
    requires
        0 <= i < s.len(),
    ensures
        seq_max(s) >= s[i],
    decreases s.len(),
{
    if s.len() > 1 && i < s.len() - 1 {
        lemma_seq_max_ge(s.drop_last(), i);
    }
}

/// The minimum of a non-empty sequence is one of its elements.
pub proof fn lemma_seq_min_is_elem(s: Seq<u8>)
    requires
        s.len() > 0,
    ensures
        exists|i: int| 0 <= i < s.len() && s[i] == seq_min(s),
    decreases s.len(),
{
    if s.len() <= 1 {
        assert(s[0] == seq_min(s));
    } else if s.last() < seq_min(s.drop_last()) {
        assert(s[s.len() - 1] == seq_min(s));
    } else {
        lemma_seq_min_is_elem(s.drop_last());
        let i = choose|i: int| 0 <= i < s.drop_last().len() && s.drop_last()[i] == seq_min(
            s.drop_last(),
        );
        assert(s[i] == seq_min(s));
    }
}

/// The maximum of a non-empty sequence is one of its elements.
pub proof fn lemma_seq_max_is_elem(s: Seq<u8>)
    requires
        s.len() > 0,
    ensures
        exists|i: int| 0 <= i < s.len() && s[i] == seq_max(s),
    decreases s.len(),
{
    if s.len() <= 1 {
        assert(s[0] == seq_max(s));
    } else if s.last() > seq_max(s.drop_last()) {
        assert(s[s.len() - 1] == seq_max(s));
    } else {
        lemma_seq_max_is_elem(s.drop_last());
        let i = choose|i: int| 0 <= i < s.drop_last().len() && s.drop_last()[i] == seq_max(
            s.drop_last(),
        );
        assert(s[i] == seq_max(s));
    }
}

/// One channel value rescaled from the range [lo, hi] to [0, 255]:
/// round((v - lo) / (hi - lo) * 255), written over the integers as
/// floor(((v - lo) * 510 + (hi - lo)) / (2 * (hi - lo))).
pub open spec fn norm_chan(v: u8, lo: u8, hi: u8) -> u8
    recommends
        lo < hi,
        lo <= v <= hi,
{
    (((v - lo) * 510 + (hi - lo)) / (2 * (hi - lo))) as u8
}

/// Contrast normalization of the raw bytes: a flat sequence is unchanged;
/// any other is rescaled so its least value becomes 0 and its greatest 255.
pub open spec fn normalize_data(s: Seq<u8>) -> Seq<u8>
    recommends
        s.len() > 0,
{
    if seq_min(s) == seq_max(s) {
        s
    } else {
        Seq::new(s.len(), |i: int| norm_chan(s[i], seq_min(s), seq_max(s)))
    }
}

/// The rescaled value stays in [0, 255] whenever `v` lies in [lo, hi].
pub proof fn lemma_norm_chan_bounds(v: u8, lo: u8, hi: u8)
    by (nonlinear_arith)
    requires
        lo < hi,
        lo <= v,
        v <= hi,
    ensures
        0 <= ((v - lo) * 510 + (hi - lo)) / (2 * (hi - lo)) <= 255,
{
}

/// The endpoints map exactly to 0 and 255.
pub proof fn lemma_norm_chan_endpoints(lo: u8, hi: u8)
    requires
        lo < hi,
    ensures
        norm_chan(lo, lo, hi) == 0,
        norm_chan(hi, lo, hi) == 255,
{
    let d = hi - lo;
    vstd::arithmetic::div_mod::lemma_fundamental_div_mod_converse(d, 2 * d, 0, d);
    vstd::arithmetic::div_mod::lemma_fundamental_div_mod_converse(511 * d, 2 * d, 255, d);
}

/// Rescaling from the full range [0, 255] changes nothing.
pub proof fn lemma_norm_chan_identity(v: u8)
    ensures
        norm_chan(v, 0, 255) == v,
{
    vstd::arithmetic::div_mod::lemma_fundamental_div_mod_converse(v * 510 + 255, 510, v as int, 255);
}

/// Rescales every channel value so the image's single global minimum and
/// maximum (taken across all channels of all pixels combined) become 0 and
/// 255.  A perfectly flat image is returned unchanged.
pub fn normalize_image(hidden_image: &PixelBuffer) -> (r: PixelBuffer)
    requires
        hidden_image.wf(),
    ensures
        r.wf(),
        r.width == hidden_image.width,
        r.height == hidden_image.height,
        r.data@ == normalize_data(hidden_image.data@),
{
    proof {
        hidden_image.lemma_wf_bounds();
    }
    let ghost s = hidden_image.data@;
    let mut lo: u8 = hidden_image.data[0];
    let mut hi: u8 = lo;
    proof {
        assert(s.take(1) =~= seq![s[0]]);
    }
    let mut i: usize = 1;
    while i < hidden_image.data.len()
        invariant
            s == hidden_image.data@,
            s.len() > 0,
            1 <= i <= s.len(),
            lo == seq_min(s.take(i as int)),
            hi == seq_max(s.take(i as int)),
        decreases s.len() - i,
    {
        let v = hidden_image.data[i];
        proof {
            assert(s.take(i as int + 1).drop_last() =~= s.take(i as int));
            assert(s.take(i as int + 1).last() == s[i as int]);
        }
        if v < lo {
            lo = v;
        }
        if v > hi {
            hi = v;
        }
        i = i + 1;
    }
    proof {
        assert(s.take(s.len() as int) =~= s);
    }
    if lo == hi {
        let r = hidden_image.duplicate();
        return r;
    }
    let d: u8 = hi - lo;
    let mut out: Vec<u8> = Vec::new();
    let mut j: usize = 0;
    while j < hidden_image.data.len()
        invariant
            s == hidden_image.data@,
            lo == seq_min(s),
            hi == seq_max(s),
            lo < hi,
            d == hi - lo,
            j <= s.len(),
            out@.len() == j,
            forall|k: int| 0 <= k < j ==> out@[k] == norm_chan(s[k], lo, hi),
        decreases s.len() - j,
    {
        let v = hidden_image.data[j];
        proof {
            lemma_seq_min_le(s, j as int);
            lemma_seq_max_ge(s, j as int);
            lemma_norm_chan_bounds(v, lo, hi);
        }
        let num: u32 = ((v - lo) as u32) * 510 + (d as u32);
        let den: u32 = 2 * (d as u32);
        out.push((num / den) as u8);
        j = j + 1;
    }
    proof {
        assert(out@ =~= normalize_data(s));
    }
    PixelBuffer { width: hidden_image.width, height: hidden_image.height, data: out }
}

/// Law (normalization range): for any non-constant input, the normalized
/// output's global minimum is 0 and its global maximum is 255.
pub proof fn lemma_normalize_range(s: Seq<u8>)
    requires
        s.len() > 0,
        seq_min(s) != seq_max(s),
    ensures
        seq_min(normalize_data(s)) == 0,
        seq_max(normalize_data(s)) == 255,
{
    let lo = seq_min(s);
    let hi = seq_max(s);
    lemma_seq_min_is_elem(s);
    let imin = choose|i: int| 0 <= i < s.len() && s[i] == lo;
    lemma_seq_max_ge(s, imin);
    let t = normalize_data(s);
    lemma_norm_chan_endpoints(lo, hi);
    // the element where the input attains its minimum becomes 0
    lemma_seq_min_le(t, imin);
    // the element where the input attains its maximum becomes 255
    lemma_seq_max_is_elem(s);
    let imax = choose|i: int| 0 <= i < s.len() && s[i] == hi;
    lemma_seq_max_ge(t, imax);
    // no element exceeds 255
    lemma_seq_max_is_elem(t);
    let k = choose|i: int| 0 <= i < t.len() && t[i] == seq_max(t);
    lemma_seq_min_le(s, k);
    lemma_seq_max_ge(s, k);
    lemma_norm_chan_bounds(s[k], lo, hi);
}

/// Law (normalization idempotence): normalizing an already-normalized
/// non-constant image returns it unchanged.
pub proof fn lemma_normalize_idempotent(s: Seq<u8>)
    requires
        s.len() > 0,
        seq_min(s) != seq_max(s),
    ensures
        normalize_data(normalize_data(s)) == normalize_data(s),
{
    lemma_normalize_range(s);
    let t = normalize_data(s);
    assert forall|j: int| 0 <= j < t.len() implies #[trigger] normalize_data(t)[j] == t[j] by {
        lemma_norm_chan_identity(t[j]);
    }
    assert(normalize_data(t) =~= t);
}

} // verus!
