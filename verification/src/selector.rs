//! Canonical image selection: of all variants offered for one emote, choose
//! exactly one, by animation parity first, then MIME preference, then scale.

use vstd::prelude::*;
use crate::models::{Image, ImageV};
use crate::strutil::str_eq;

verus! {

/// A variant with more than one frame is animated.
pub open spec fn spec_is_animated(img: ImageV) -> bool {
    img.frame_count > 1
}

/// MIME preference, higher is better; an unknown MIME ranks lowest.
pub open spec fn spec_mime_rank(m: Seq<char>) -> int {
    if m == "image/webp"@ {
        4
    } else if m == "image/gif"@ {
        3
    } else if m == "image/avif"@ {
        2
    } else if m == "image/png"@ {
        1
    } else {
        0
    }
}

/// Strict order on variants: animation parity outranks MIME preference,
/// which outranks scale.
pub open spec fn img_lt(a: ImageV, b: ImageV) -> bool {
    ||| (!spec_is_animated(a) && spec_is_animated(b))
    ||| (spec_is_animated(a) == spec_is_animated(b) && spec_mime_rank(a.mime) < spec_mime_rank(
        b.mime,
    ))
    ||| (spec_is_animated(a) == spec_is_animated(b) && spec_mime_rank(a.mime) == spec_mime_rank(
        b.mime,
    ) && a.scale < b.scale)
}

/// Two variants the order cannot tell apart.
pub open spec fn img_tied(a: ImageV, b: ImageV) -> bool {
    &&& spec_is_animated(a) == spec_is_animated(b)
    &&& spec_mime_rank(a.mime) == spec_mime_rank(b.mime)
    &&& a.scale == b.scale
}

/// Non-strict order on variants.
pub open spec fn img_le(a: ImageV, b: ImageV) -> bool {
    img_lt(a, b) || img_tied(a, b)
}

fn mime_rank(m: &String) -> (r: i32)
    ensures
        r as int == spec_mime_rank(m@),
{
    if str_eq(m.as_str(), "image/webp") {
        4
    } else if str_eq(m.as_str(), "image/gif") {
        3
    } else if str_eq(m.as_str(), "image/avif") {
        2
    } else if str_eq(m.as_str(), "image/png") {
        1
    } else {
        0
    }
}

/// Whether `cur` ranks at least as high as `best`; a tie counts, so that of
/// tied variants the one seen later wins.
fn img_ge(cur: &Image, best: &Image) -> (r: bool)
    ensures
        r == img_le(best@, cur@),
{
    let cur_anim = cur.frame_count > 1;
    let best_anim = best.frame_count > 1;
    if cur_anim != best_anim {
        return cur_anim;
    }
    let cur_rank = mime_rank(&cur.mime);
    let best_rank = mime_rank(&best.mime);
    if cur_rank != best_rank {
        return cur_rank > best_rank;
    }
    cur.scale >= best.scale
}

/// The variant at position `k` is the selected one: every variant ranks no
/// higher than it, and every later variant ranks strictly lower, so of tied
/// variants the last wins.
pub open spec fn is_selected(dv: Seq<ImageV>, k: int, img: ImageV) -> bool {
    &&& 0 <= k < dv.len()
    &&& img == dv[k]
    &&& forall|i: int| 0 <= i < dv.len() ==> img_le(#[trigger] dv[i], img)
    &&& forall|i: int| k < i < dv.len() ==> img_lt(#[trigger] dv[i], img)
}

/// Some variant position is the selected one.
pub open spec fn selection_of(dv: Seq<ImageV>, img: ImageV) -> bool {
    exists|k: int| is_selected(dv, k, img)
}

/// The selected variant of a non-empty list, as a function: the fold of
/// the order over the list, later variants winning ties.
pub open spec fn spec_best(dv: Seq<ImageV>) -> ImageV
    recommends
        dv.len() > 0,
    decreases dv.len(),
{
    if dv.len() <= 1 {
        dv[0]
    } else if img_le(spec_best(dv.drop_last()), dv.last()) {
        dv.last()
    } else {
        spec_best(dv.drop_last())
    }
}

/// Chooses the canonical variant: the highest under the order, and of equal
/// variants the last. An empty variant list yields nothing, which callers
/// surface as the no-image-available drop.
pub fn select_best_image<'a>(images: &'a Vec<Image>) -> (r: Option<&'a Image>)
    ensures
        (r is None) <==> images.deep_view().len() == 0,
        match r {
            None => true,
            Some(img) => selection_of(images.deep_view(), img@) && img@ == spec_best(
                images.deep_view(),
            ),
        },
{
    if images.len() == 0 {
        return None;
    }
    let ghost dv = images.deep_view();
    let mut best: usize = 0;
    let mut i: usize = 1;
    proof {
        assert(dv.subrange(0, 1)[0] == dv[0]);
    }
    while i < images.len()
        invariant
            dv == images.deep_view(),
            dv.len() == images.len(),
            0 <= best < i <= images.len(),
            dv[best as int] == spec_best(dv.subrange(0, i as int)),
            forall|j: int| 0 <= j < i ==> img_le(#[trigger] dv[j], dv[best as int]),
            forall|j: int| best < j < i ==> img_lt(#[trigger] dv[j], dv[best as int]),
        decreases images.len() - i,
    {
        proof {
            let s1 = dv.subrange(0, i + 1 as int);
            assert(s1.drop_last() =~= dv.subrange(0, i as int));
            assert(s1.last() == dv[i as int]);
        }
        if img_ge(&images[i], &images[best]) {
            best = i;
        }
        i += 1;
    }
    proof {
        assert(dv.subrange(0, dv.len() as int) =~= dv);
    }
    let chosen = &images[best];
    proof {
        assert(chosen@ == dv[best as int]);
        assert(is_selected(images.deep_view(), best as int, chosen@));
        assert(selection_of(images.deep_view(), chosen@));
    }
    Some(chosen)
}

} // verus!
