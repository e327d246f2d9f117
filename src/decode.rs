//! The decode pipeline: grayscale conversion, and the gathering of the
//! payloads that decoded, in input order, from the outcome of decoding each
//! detected QR grid.

use vstd::prelude::*;

use crate::crop::Frame;

verus! {

/// A single-channel intensity image: `width * height` bytes, row by row.
#[derive(Clone, Debug)]
pub struct GrayFrame {
    pub width: u32,
    pub height: u32,
    pub luma: Vec<u8>,
}

impl GrayFrame {
    pub open spec fn wf(&self) -> bool {
        self.luma.len() == self.width * self.height
    }

    /// The intensity at column `x` and row `y`; 0 outside the image.
    pub fn luma_at(&self, x: usize, y: usize) -> (r: u8)
        ensures
            self.wf() && x < self.width && y < self.height ==> r == self.luma@[y * self.width
                + x],
            !(x < self.width && y < self.height) ==> r == 0,
    {
        if x >= self.width as usize || y >= self.height as usize {
            return 0;
        }
        proof {
            let w = self.width as int;
            let h = self.height as int;
            assert(y * w + x < w * h) by (nonlinear_arith)
                requires
                    x < w,
                    y < h,
            ;
            assert(y * w <= y * w + x);
        }
        match y.checked_mul(self.width as usize) {
            Some(row_start) => match row_start.checked_add(x) {
                Some(i) => {
                    if i < self.luma.len() {
                        self.luma[i]
                    } else {
                        0
                    }
                },
                None => 0,
            },
            None => 0,
        }
    }
}

/// The intensity bytes that `image` computes for an RGBA buffer.
pub uninterp spec fn luma_of(width: u32, height: u32, rgba: Seq<u8>) -> Seq<u8>;

/// Relies on `image::DynamicImage::into_luma8`: an RGBA image becomes a
/// grayscale image of the same size whose bytes depend on the pixels alone.
#[verifier::external_body]
fn to_gray(frame: &Frame) -> (r: GrayFrame)
    requires
        frame.wf(),
    ensures
        r.wf(),
        r.width == frame.width,
        r.height == frame.height,
        r.luma@ == luma_of(frame.width, frame.height, frame.rgba@),
{
    let img = image::RgbaImage::from_raw(frame.width, frame.height, frame.rgba.clone()).unwrap();
    let gray = image::DynamicImage::ImageRgba8(img).into_luma8();
    GrayFrame { width: gray.width(), height: gray.height(), luma: gray.into_raw() }
}

impl GrayFrame {
    /// The grayscale image of an RGBA frame, as `image` computes it: same
    /// size, one intensity byte per pixel.
    pub fn from_frame(frame: &Frame) -> (r: GrayFrame)
        requires
            frame.wf(),
        ensures
            r.wf(),
            r.width == frame.width,
            r.height == frame.height,
            r.luma@ == luma_of(frame.width, frame.height, frame.rgba@),
    {
        to_gray(frame)
    }
}

/// The outcome of decoding each grid found in one image, with payloads as
/// character sequences.
pub open spec fn outcome_views(o: Seq<Option<String>>) -> Seq<Option<Seq<char>>> {
    o.map_values(
        |x: Option<String>|
            match x {
                Some(s) => Some(s@),
                None => None,
            },
    )
}

pub open spec fn payload_of(o: Option<Seq<char>>) -> Seq<Seq<char>> {
    match o {
        Some(s) => seq![s],
        None => seq![],
    }
}

/// The payloads of one image's grids that decoded, in grid order.
pub open spec fn decoded(o: Seq<Option<Seq<char>>>) -> Seq<Seq<char>>
    decreases o.len(),
{
    if o.len() == 0 {
        seq![]
    } else {
        decoded(o.drop_last()) + payload_of(o.last())
    }
}

/// The payloads that decoded, image after image, in input order.
pub open spec fn decoded_all(images: Seq<Seq<Option<Seq<char>>>>) -> Seq<Seq<char>>
    decreases images.len(),
{
    if images.len() == 0 {
        seq![]
    } else {
        decoded_all(images.drop_last()) + decoded(images.last())
    }
}

/// How many of one image's grids decoded.
pub open spec fn successes(o: Seq<Option<Seq<char>>>) -> nat
    decreases o.len(),
{
    if o.len() == 0 {
        0
    } else {
        successes(o.drop_last()) + if o.last() is Some {
            1nat
        } else {
            0nat
        }
    }
}

/// How many grids decoded over all images.
pub open spec fn total_successes(images: Seq<Seq<Option<Seq<char>>>>) -> nat
    decreases images.len(),
{
    if images.len() == 0 {
        0
    } else {
        total_successes(images.drop_last()) + successes(images.last())
    }
}

pub open spec fn batch_views(o: Seq<Vec<Option<String>>>) -> Seq<Seq<Option<Seq<char>>>> {
    o.map_values(|v: Vec<Option<String>>| outcome_views(v@))
}

pub open spec fn string_views(s: Seq<String>) -> Seq<Seq<char>> {
    s.map_values(|x: String| x@)
}

/// Gathers, for a batch of images, the payloads of the grids that decoded:
/// image after image, and within an image in detection order. A grid that
/// failed to decode is skipped.
pub fn collect_payloads(outcomes: &Vec<Vec<Option<String>>>) -> (r: Vec<String>)
    ensures
        string_views(r@) == decoded_all(batch_views(outcomes@)),
{
    let mut out: Vec<String> = Vec::new();
    let mut i: usize = 0;
    while i < outcomes.len()
        invariant
            i <= outcomes.len(),
            string_views(out@) == decoded_all(batch_views(outcomes@.take(i as int))),
        decreases outcomes.len() - i,
    {
        let grids = &outcomes[i];
        let ghost before = string_views(out@);
        let mut j: usize = 0;
        while j < grids.len()
            invariant
                j <= grids.len(),
                string_views(out@) == before + decoded(outcome_views(grids@.take(j as int))),
            decreases grids.len() - j,
        {
            proof {
                assert(outcome_views(grids@.take(j + 1)).drop_last() =~= outcome_views(
                    grids@.take(j as int),
                ));
            }
            let ghost step = outcome_views(grids@.take(j + 1));
            assert(decoded(step) == decoded(step.drop_last()) + payload_of(step.last()));
            match &grids[j] {
                Some(payload) => {
                    let copy = payload.clone();
                    let ghost prev = out@;
                    assert(step.last() == Some(payload@));
                    out.push(copy);
                    assert(string_views(out@) =~= string_views(prev).push(payload@));
                    assert(string_views(out@) =~= before + decoded(
                        outcome_views(grids@.take(j + 1)),
                    ));
                },
                None => {
                    assert(step.last() == None::<Seq<char>>);
                    assert(string_views(out@) =~= before + decoded(
                        outcome_views(grids@.take(j + 1)),
                    ));
                },
            }
            j += 1;
        }
        proof {
            assert(grids@.take(grids.len() as int) =~= grids@);
            assert(batch_views(outcomes@.take(i + 1)).drop_last() =~= batch_views(
                outcomes@.take(i as int),
            ));
        }
        i += 1;
    }
    assert(outcomes@.take(outcomes.len() as int) =~= outcomes@);
    out
}

proof fn lemma_decoded_len(o: Seq<Option<Seq<char>>>)
    ensures
        decoded(o).len() == successes(o),
    decreases o.len(),
{
    if o.len() > 0 {
        lemma_decoded_len(o.drop_last());
    }
}

/// As many payloads come out of a batch as grids decoded in it, summed over
/// its images.
pub proof fn lemma_payload_count(images: Seq<Seq<Option<Seq<char>>>>)
    ensures
        decoded_all(images).len() == total_successes(images),
    decreases images.len(),
{
    if images.len() > 0 {
        lemma_payload_count(images.drop_last());
        lemma_decoded_len(images.last());
    }
}

proof fn lemma_no_success(o: Seq<Option<Seq<char>>>)
    requires
        forall|j: int| 0 <= j < o.len() ==> (#[trigger] o[j]) is None,
    ensures
        successes(o) == 0,
    decreases o.len(),
{
    if o.len() > 0 {
        lemma_no_success(o.drop_last());
    }
}

/// A batch in which no grid decodes, or which holds no image, gives an empty
/// result.
pub proof fn lemma_all_failed_empty(images: Seq<Seq<Option<Seq<char>>>>)
    requires
        forall|i: int, j: int|
            0 <= i < images.len() && 0 <= j < images[i].len() ==> (#[trigger] images[i][j]) is None,
    ensures
        decoded_all(images) == Seq::<Seq<char>>::empty(),
    decreases images.len(),
{
    if images.len() > 0 {
        let rest = images.drop_last();
        assert forall|i: int, j: int|
            0 <= i < rest.len() && 0 <= j < rest[i].len() implies (#[trigger] rest[i][j]) is None by {
            assert(rest[i] == images[i]);
        }
        lemma_all_failed_empty(rest);
        let last = images.last();
        assert forall|j: int| 0 <= j < last.len() implies (#[trigger] last[j]) is None by {
            assert(images[images.len() - 1][j] is None);
        }
        lemma_no_success(last);
        lemma_decoded_len(last);
        assert(decoded_all(images) =~= Seq::<Seq<char>>::empty());
    }
}

/// Payloads keep the order of the images: a batch split in two gives the
/// payloads of the first part followed by those of the second.
pub proof fn lemma_batch_order(
    first: Seq<Seq<Option<Seq<char>>>>,
    second: Seq<Seq<Option<Seq<char>>>>,
)
    ensures
        decoded_all(first + second) == decoded_all(first) + decoded_all(second),
    decreases second.len(),
{
    if second.len() == 0 {
        assert(first + second =~= first);
        assert(decoded_all(first) + decoded_all(second) =~= decoded_all(first));
    } else {
        lemma_batch_order(first, second.drop_last());
        assert((first + second).drop_last() =~= first + second.drop_last());
        assert((first + second).last() == second.last());
        assert(decoded_all(first + second) =~= decoded_all(first) + decoded_all(second));
    }
}

proof fn lemma_successes_step(o: Seq<Option<Seq<char>>>, j: int)
    requires
        0 <= j < o.len(),
    ensures
        successes(o.take(j + 1)) == successes(o.take(j)) + if o[j] is Some {
            1nat
        } else {
            0nat
        },
        decoded(o.take(j + 1)) == decoded(o.take(j)) + payload_of(o[j]),
{
    assert(o.take(j + 1).drop_last() =~= o.take(j));
}

proof fn lemma_decoded_prefix(o: Seq<Option<Seq<char>>>, a: int, b: int)
    requires
        0 <= a <= b <= o.len(),
    ensures
        successes(o.take(a)) <= successes(o.take(b)),
        forall|i: int|
            0 <= i < decoded(o.take(a)).len() ==> decoded(o.take(a))[i] == decoded(
                o.take(b),
            )[i],
    decreases b - a,
{
    if a < b {
        lemma_decoded_prefix(o, a, b - 1);
        lemma_successes_step(o, b - 1);
        lemma_decoded_len(o.take(a));
        lemma_decoded_len(o.take(b - 1));
        let shorter = decoded(o.take(b - 1));
        assert forall|i: int| 0 <= i < decoded(o.take(a)).len() implies decoded(o.take(a))[i]
            == decoded(o.take(b))[i] by {
            assert(decoded(o.take(b))[i] == shorter[i]);
        }
    }
}

proof fn lemma_position_in_image(o: Seq<Option<Seq<char>>>, j: int)
    requires
        0 <= j < o.len(),
        o[j] is Some,
    ensures
        successes(o.take(j)) < successes(o),
        decoded(o)[successes(o.take(j)) as int] == o[j]->0,
{
    lemma_successes_step(o, j);
    lemma_decoded_prefix(o, j + 1, o.len() as int);
    lemma_decoded_len(o.take(j));
    lemma_decoded_len(o.take(j + 1));
    assert(o.take(o.len() as int) =~= o);
}

proof fn lemma_total_step(images: Seq<Seq<Option<Seq<char>>>>, k: int)
    requires
        0 <= k < images.len(),
    ensures
        total_successes(images.take(k + 1)) == total_successes(images.take(k)) + successes(
            images[k],
        ),
        decoded_all(images.take(k + 1)) == decoded_all(images.take(k)) + decoded(images[k]),
{
    assert(images.take(k + 1).drop_last() =~= images.take(k));
}

proof fn lemma_decoded_all_prefix(images: Seq<Seq<Option<Seq<char>>>>, a: int, b: int)
    requires
        0 <= a <= b <= images.len(),
    ensures
        total_successes(images.take(a)) <= total_successes(images.take(b)),
        forall|i: int|
            0 <= i < decoded_all(images.take(a)).len() ==> decoded_all(images.take(a))[i]
                == decoded_all(images.take(b))[i],
    decreases b - a,
{
    if a < b {
        lemma_decoded_all_prefix(images, a, b - 1);
        lemma_total_step(images, b - 1);
        lemma_payload_count(images.take(a));
        lemma_payload_count(images.take(b - 1));
        let shorter = decoded_all(images.take(b - 1));
        assert forall|i: int| 0 <= i < decoded_all(images.take(a)).len() implies decoded_all(
            images.take(a),
        )[i] == decoded_all(images.take(b))[i] by {
            assert(decoded_all(images.take(b))[i] == shorter[i]);
        }
    }
}

/// Where the payload of grid `j` of image `k` stands in the gathered result:
/// after every payload of the earlier images and of the earlier grids of the
/// same image.
pub open spec fn payload_index(images: Seq<Seq<Option<Seq<char>>>>, k: int, j: int) -> int {
    (total_successes(images.take(k)) + successes(images[k].take(j))) as int
}

/// Every grid that decoded contributes its payload to the gathered result,
/// at `payload_index`.
pub proof fn lemma_payload_position(images: Seq<Seq<Option<Seq<char>>>>, k: int, j: int)
    requires
        0 <= k < images.len(),
        0 <= j < images[k].len(),
        images[k][j] is Some,
    ensures
        0 <= payload_index(images, k, j) < decoded_all(images).len(),
        decoded_all(images)[payload_index(images, k, j)] == images[k][j]->0,
{
    lemma_position_in_image(images[k], j);
    lemma_total_step(images, k);
    lemma_decoded_all_prefix(images, k + 1, images.len() as int);
    lemma_payload_count(images.take(k));
    lemma_payload_count(images);
    lemma_decoded_len(images[k]);
    assert(images.take(images.len() as int) =~= images);
}

/// Payloads come in input order: of two grids that decoded, the one in an
/// earlier image, or earlier in detection order within the same image,
/// stands earlier in the result.
pub proof fn lemma_payload_order(
    images: Seq<Seq<Option<Seq<char>>>>,
    k: int,
    j: int,
    k2: int,
    j2: int,
)
    requires
        0 <= k < images.len(),
        0 <= j < images[k].len(),
        images[k][j] is Some,
        0 <= k2 < images.len(),
        0 <= j2 < images[k2].len(),
        k < k2 || (k == k2 && j < j2),
    ensures
        payload_index(images, k, j) < payload_index(images, k2, j2),
{
    if k == k2 {
        lemma_successes_step(images[k], j);
        lemma_decoded_prefix(images[k], j + 1, j2);
    } else {
        lemma_position_in_image(images[k], j);
        lemma_total_step(images, k);
        lemma_decoded_all_prefix(images, k + 1, k2);
    }
}

/// The payloads joined into one line, separated by single spaces.
pub open spec fn joined(parts: Seq<Seq<char>>) -> Seq<char>
    decreases parts.len(),
{
    if parts.len() == 0 {
        seq![]
    } else if parts.len() == 1 {
        parts[0]
    } else {
        joined(parts.drop_last()) + seq![' '] + parts.last()
    }
}

/// The payloads as one space-separated line, as they are handed to the
/// clipboard or a notification.
pub fn join_payloads(qrs: &Vec<String>) -> (r: String)
    ensures
        r@ == joined(string_views(qrs@)),
{
    let mut out = String::new();
    let mut i: usize = 0;
    while i < qrs.len()
        invariant
            i <= qrs.len(),
            out@ == joined(string_views(qrs@.take(i as int))),
        decreases qrs.len() - i,
    {
        let ghost parts = string_views(qrs@.take(i + 1));
        assert(parts.drop_last() =~= string_views(qrs@.take(i as int)));
        assert(parts.last() == qrs@[i as int]@);
        if i > 0 {
            proof {
                reveal_strlit(" ");
            }
            out.append(" ");
        }
        out.append(qrs[i].as_str());
        assert(out@ =~= joined(parts));
        i += 1;
    }
    assert(qrs@.take(qrs.len() as int) =~= qrs@);
    out
}

} // verus!
