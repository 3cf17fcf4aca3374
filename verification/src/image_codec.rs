//! The 2-bit-per-channel image-in-image codec: embedding writes the
//! secret's top two bits of every channel into the carrier's bottom two;
//! extraction scales the two preserved bits back to four levels.

use crate::pixel::{PixelBuffer, StegoError};
use crate::reconcile::{expand_data, expand_image, lanczos_resized, resize_lanczos};
use vstd::prelude::*;

verus! {

/// One embedded channel: the carrier keeps its top six bits; the secret's
/// top two bits land in the bottom two.
pub open spec fn embed_chan(c: u8, s: u8) -> u8 {
    (c & 0xFC) | (s >> 6)
}

/// Pointwise embedding of two equally long channel sequences.
pub open spec fn embed_data(c: Seq<u8>, s: Seq<u8>) -> Seq<u8> {
    Seq::new(c.len(), |i: int| embed_chan(c[i], s[i]))
}

/// One reconstructed channel: the two preserved bits scaled to the four
/// levels 0, 85, 170, 255.
pub open spec fn decrypt_chan(v: u8) -> u8 {
    ((v & 0x03) * 85) as u8
}

/// Pointwise reconstruction of a channel sequence.
pub open spec fn decrypt_data(s: Seq<u8>) -> Seq<u8> {
    Seq::new(s.len(), |i: int| decrypt_chan(s[i]))
}

/// The four-level quantization of a channel value: its top two bits,
/// scaled by 85.
pub open spec fn quantized_chan(v: u8) -> u8 {
    ((v >> 6) * 85) as u8
}

/// The width both images are brought to: the larger of the two.
pub open spec fn target_width(a: PixelBuffer, b: PixelBuffer) -> int {
    if a.width >= b.width {
        a.width as int
    } else {
        b.width as int
    }
}

/// The height both images are brought to: the larger of the two.
pub open spec fn target_height(a: PixelBuffer, b: PixelBuffer) -> int {
    if a.height >= b.height {
        a.height as int
    } else {
        b.height as int
    }
}

/// The bytes of `b` brought to the target dimensions by Lanczos
/// resampling; an image already at the target keeps its bytes.
pub open spec fn resized_to(b: PixelBuffer, tw: int, th: int) -> Seq<u8> {
    if b.width == tw && b.height == th {
        b.data@
    } else {
        lanczos_resized(b.data@, b.width as int, b.height as int, tw, th)
    }
}

/// Embeds a secret image into a carrier of the same dimensions, channel by
/// channel: the output keeps the carrier's top six bits and carries the
/// secret's top two bits in its bottom two.  The carrier's low bits are
/// destroyed; this is a lossy, one-way transform.
pub fn embed_image(carrier: &PixelBuffer, secret: &PixelBuffer) -> (r: PixelBuffer)
    requires
        carrier.wf(),
        secret.wf(),
        carrier.width == secret.width,
        carrier.height == secret.height,
    ensures
        r.wf(),
        r.width == carrier.width,
        r.height == carrier.height,
        r.data@ == embed_data(carrier.data@, secret.data@),
{
    let mut out: Vec<u8> = Vec::new();
    let mut i: usize = 0;
    while i < carrier.data.len()
        invariant
            carrier.data@.len() == secret.data@.len(),
            i <= carrier.data@.len(),
            out@.len() == i,
            forall|j: int|
                0 <= j < i ==> out@[j] == embed_chan(carrier.data@[j], secret.data@[j]),
        decreases carrier.data@.len() - i,
    {
        let cv = carrier.data[i];
        let sv = secret.data[i];
        out.push((cv & 0xFC) | (sv >> 6));
        i = i + 1;
    }
    proof {
        assert(out@ =~= embed_data(carrier.data@, secret.data@));
    }
    PixelBuffer { width: carrier.width, height: carrier.height, data: out }
}

/// Reconstructs the hidden image from the bottom two bits of every
/// channel, quantized to the four levels 0, 85, 170, 255.
pub fn decrypt_image(hidden_image: &PixelBuffer) -> (r: PixelBuffer)
    requires
        hidden_image.wf(),
    ensures
        r.wf(),
        r.width == hidden_image.width,
        r.height == hidden_image.height,
        r.data@ == decrypt_data(hidden_image.data@),
{
    let mut out: Vec<u8> = Vec::new();
    let mut i: usize = 0;
    while i < hidden_image.data.len()
        invariant
            i <= hidden_image.data@.len(),
            out@.len() == i,
            forall|j: int| 0 <= j < i ==> out@[j] == decrypt_chan(hidden_image.data@[j]),
        decreases hidden_image.data@.len() - i,
    {
        let hv = hidden_image.data[i];
        proof {
            assert(hv & 0x03 <= 3) by (bit_vector);
        }
        out.push((hv & 0x03) * 85);
        i = i + 1;
    }
    proof {
        assert(out@ =~= decrypt_data(hidden_image.data@));
    }
    PixelBuffer { width: hidden_image.width, height: hidden_image.height, data: out }
}

/// Hides a secret image inside a carrier.  Matching dimensions embed
/// directly.  Differing dimensions are reconciled to the larger of the two
/// in each axis, by Lanczos resampling when `resize` is selected, by
/// zero-padding when `expand` is; with neither policy the operation fails
/// with a size-mismatch error.  The output always has the reconciled
/// (largest) dimensions.
pub fn hide_image(
    source_image: &PixelBuffer,
    secret_image: &PixelBuffer,
    resize: bool,
    expand: bool,
) -> (r: Result<PixelBuffer, StegoError>)
    requires
        source_image.wf(),
        secret_image.wf(),
        (resize || expand) ==> 3 * target_width(*source_image, *secret_image) * target_height(
            *source_image,
            *secret_image,
        ) <= usize::MAX,
    ensures
        ({
            let same = source_image.width == secret_image.width && source_image.height
                == secret_image.height;
            let tw = target_width(*source_image, *secret_image);
            let th = target_height(*source_image, *secret_image);
            &&& (r is Ok <==> (same || resize || expand))
            &&& (!(same || resize || expand) ==> r == Err::<PixelBuffer, StegoError>(
                StegoError::SizeMismatch,
            ))
            &&& (r matches Ok(out) ==> out.wf() && out.width == tw && out.height == th)
            &&& (same ==> (r matches Ok(out) && out.data@ == embed_data(
                source_image.data@,
                secret_image.data@,
            )))
            &&& (!same && resize ==> (r matches Ok(out) && out.data@ == embed_data(
                resized_to(*source_image, tw, th),
                resized_to(*secret_image, tw, th),
            )))
            &&& (!same && !resize && expand ==> (r matches Ok(out) && out.data@ == embed_data(
                expand_data(
                    source_image.data@,
                    source_image.width as int,
                    source_image.height as int,
                    tw,
                    th,
                ),
                expand_data(
                    secret_image.data@,
                    secret_image.width as int,
                    secret_image.height as int,
                    tw,
                    th,
                ),
            )))
        }),
{
    let tw: u32 = if source_image.width >= secret_image.width {
        source_image.width
    } else {
        secret_image.width
    };
    let th: u32 = if source_image.height >= secret_image.height {
        source_image.height
    } else {
        secret_image.height
    };
    if source_image.width == secret_image.width && source_image.height == secret_image.height {
        Ok(embed_image(source_image, secret_image))
    } else if resize {
        let rs = if source_image.width == tw && source_image.height == th {
            source_image.duplicate()
        } else {
            resize_lanczos(source_image, tw, th)
        };
        let rt = if secret_image.width == tw && secret_image.height == th {
            secret_image.duplicate()
        } else {
            resize_lanczos(secret_image, tw, th)
        };
        Ok(embed_image(&rs, &rt))
    } else if expand {
        let es = expand_image(source_image, tw, th);
        let et = expand_image(secret_image, tw, th);
        Ok(embed_image(&es, &et))
    } else {
        Err(StegoError::SizeMismatch)
    }
}

/// Law (image round-trip quantization): decoding an embedding recovers,
/// for every channel of every pixel, the secret's top two bits quantized
/// to four levels — whatever the carrier held there.
pub proof fn lemma_image_round_trip(c: Seq<u8>, s: Seq<u8>)
    requires
        c.len() == s.len(),
    ensures
        decrypt_data(embed_data(c, s)) == Seq::new(s.len(), |i: int| quantized_chan(s[i])),
{
    assert forall|cv: u8, sv: u8| #[trigger] decrypt_chan(embed_chan(cv, sv)) == quantized_chan(
        sv,
    ) by {
        assert((((cv & 0xFC) | (sv >> 6)) & 0x03) == sv >> 6) by (bit_vector);
        assert(sv >> 6 <= 3) by (bit_vector);
    }
    assert(decrypt_data(embed_data(c, s)) =~= Seq::new(s.len(), |i: int| quantized_chan(s[i])));
}

} // verus!
