//! Normalization of the derived image shape: a host URL plus named files
//! becomes an ordinary variant list, with the scale parsed from the filename
//! convention `{scale}x.{format}` and the MIME type synthesized from the
//! format.

use vstd::prelude::*;
use crate::models::{Emote, EmoteV, Image, ImageV, TrendingFileV, TrendingHost};

verus! {

/// The numeric value of a digit character.
pub open spec fn spec_digit_val(c: char) -> int {
    (c as u32) - ('0' as u32)
}

/// Whether every character of `s` is a decimal digit.
pub open spec fn spec_all_digits(s: Seq<char>) -> bool {
    forall|i: int| 0 <= i < s.len() ==> ('0' as u32) <= (#[trigger] s[i] as u32) <= ('9' as u32)
}

/// The decimal value of a digit string, most significant digit first.
pub open spec fn spec_dec_val(s: Seq<char>) -> int
    decreases s.len(),
{
    if s.len() == 0 {
        0
    } else {
        spec_dec_val(s.drop_last()) * 10 + spec_digit_val(s.last())
    }
}

/// `s` with every trailing repetition of `suf` removed.
pub open spec fn spec_strip_suffix_rep(s: Seq<char>, suf: Seq<char>) -> Seq<char>
    decreases s.len(),
{
    if suf.len() > 0 && suf.is_suffix_of(s) {
        spec_strip_suffix_rep(s.subrange(0, s.len() - suf.len()), suf)
    } else {
        s
    }
}

/// Whether a digit string parses as a non-negative 32-bit value.
pub open spec fn spec_parseable_i32(s: Seq<char>) -> bool {
    s.len() > 0 && spec_all_digits(s) && spec_dec_val(s) <= i32::MAX
}

/// The scale encoded in a filename of the form `{scale}x.{format}`;
/// an unparsable scale defaults to one.
pub open spec fn spec_scale_of_name(name: Seq<char>, format: Seq<char>) -> int {
    let stripped = spec_strip_suffix_rep(name, "x."@ + format);
    if spec_parseable_i32(stripped) {
        spec_dec_val(stripped)
    } else {
        1
    }
}

/// The variant synthesized for one named file of the derived shape: the URL
/// is assembled from the host, the MIME type from the format, the frame
/// count from the emote-level animated flag, and the byte size is unknown.
pub open spec fn spec_image_from_file(
    host_url: Seq<char>,
    f: TrendingFileV,
    animated: bool,
) -> ImageV {
    ImageV {
        url: "https:"@ + host_url + "/"@ + f.name,
        mime: "image/"@ + f.format,
        size: 0,
        scale: spec_scale_of_name(f.name, f.format),
        width: f.width,
        frame_count: if animated {
            2
        } else {
            1
        },
    }
}

/// The variant list of a raw record: the explicit list when one is present,
/// else the list derived from the host shape, else nothing — such a record
/// is dropped from ingestion.
pub open spec fn spec_resolve_images(e: EmoteV) -> Option<Seq<ImageV>> {
    if e.images is Some {
        e.images
    } else {
        match e.host {
            Some(h) => Some(
                h.files.map_values(
                    |f: TrendingFileV|
                        spec_image_from_file(
                            h.url,
                            f,
                            match e.animated {
                                Some(b) => b,
                                None => false,
                            },
                        ),
                ),
            ),
            None => None,
        }
    }
}

fn is_digit(c: char) -> (r: bool)
    ensures
        r == (('0' as u32) <= (c as u32) <= ('9' as u32)),
{
    let u = c as u32;
    u >= '0' as u32 && u <= '9' as u32
}

proof fn lemma_dec_val_nonneg(s: Seq<char>)
    requires
        spec_all_digits(s),
    ensures
        spec_dec_val(s) >= 0,
    decreases s.len(),
{
    if s.len() > 0 {
        assert(spec_all_digits(s.drop_last()));
        lemma_dec_val_nonneg(s.drop_last());
    }
}

proof fn lemma_dec_val_prefix_le(s: Seq<char>, i: int, j: int)
    requires
        spec_all_digits(s),
        0 <= i <= j <= s.len(),
    ensures
        spec_dec_val(s.subrange(0, i)) <= spec_dec_val(s.subrange(0, j)),
    decreases j - i,
{
    if i < j {
        let shorter = s.subrange(0, j - 1);
        let longer = s.subrange(0, j);
        assert(longer.drop_last() =~= shorter);
        assert(spec_all_digits(shorter));
        assert(spec_all_digits(longer));
        lemma_dec_val_nonneg(shorter);
        assert(spec_dec_val(longer) == spec_dec_val(shorter) * 10 + spec_digit_val(longer.last()));
        assert(spec_digit_val(longer.last()) >= 0);
        assert(spec_dec_val(shorter) * 10 >= spec_dec_val(shorter)) by (nonlinear_arith)
            requires
                spec_dec_val(shorter) >= 0,
        ;
        lemma_dec_val_prefix_le(s, i, j - 1);
    }
}

/// Parses a non-empty, all-digit string as a 32-bit value; anything else,
/// and any value past the 32-bit range, is rejected.
pub fn parse_i32_digits(s: &str) -> (r: Option<i32>)
    ensures
        (r is Some) == spec_parseable_i32(s@),
        r matches Some(v) ==> v as int == spec_dec_val(s@),
{
    let n = s.unicode_len();
    if n == 0 {
        return None;
    }
    let mut acc: i32 = 0;
    let mut i: usize = 0;
    while i < n
        invariant
            n == s@.len(),
            0 < n,
            i <= n,
            spec_all_digits(s@.subrange(0, i as int)),
            acc as int == spec_dec_val(s@.subrange(0, i as int)),
            acc >= 0,
        decreases n - i,
    {
        let c = s.get_char(i);
        if !is_digit(c) {
            proof {
                assert(!spec_all_digits(s@));
            }
            return None;
        }
        let d: i32 = ((c as u32) - ('0' as u32)) as i32;
        if acc > (i32::MAX - d) / 10 {
            proof {
                let pre = s@.subrange(0, i + 1 as int);
                assert(pre.drop_last() =~= s@.subrange(0, i as int));
                assert(spec_dec_val(pre) == acc * 10 + d);
                assert(acc * 10 + d > i32::MAX) by (nonlinear_arith)
                    requires
                        acc > (i32::MAX - d) / 10,
                        0 <= d <= 9,
                        acc >= 0,
                ;
                if spec_all_digits(s@) {
                    lemma_dec_val_prefix_le(s@, i + 1, s@.len() as int);
                    assert(s@.subrange(0, s@.len() as int) =~= s@);
                    assert(spec_dec_val(s@) > i32::MAX);
                }
            }
            return None;
        }
        proof {
            let pre = s@.subrange(0, i + 1 as int);
            assert(pre.drop_last() =~= s@.subrange(0, i as int));
            assert(pre.last() == s@[i as int]);
        }
        acc = acc * 10 + d;
        i += 1;
    }
    proof {
        assert(s@.subrange(0, n as int) =~= s@);
    }
    Some(acc)
}

fn str_has_suffix(s: &str, suf: &str) -> (r: bool)
    ensures
        r == suf@.is_suffix_of(s@),
{
    let slen = s.unicode_len();
    let flen = suf.unicode_len();
    if flen > slen {
        return false;
    }
    let mut i: usize = 0;
    while i < flen
        invariant
            s@.len() == slen,
            suf@.len() == flen,
            flen <= slen,
            i <= flen,
            forall|j: int| 0 <= j < i ==> s@[slen - flen + j] == suf@[j],
        decreases flen - i,
    {
        if s.get_char(slen - flen + i) != suf.get_char(i) {
            proof {
                assert(s@.subrange((slen - flen) as int, slen as int)[i as int] != suf@[i as int]);
            }
            return false;
        }
        i += 1;
    }
    proof {
        assert(suf@ =~= s@.subrange((slen - flen) as int, slen as int));
    }
    true
}

/// Removes every trailing repetition of `suf` from `s`.
pub fn strip_suffix_rep(s: &str, suf: &str) -> (r: String)
    ensures
        r@ == spec_strip_suffix_rep(s@, suf@),
{
    let mut cur: String = s.to_owned();
    let suf_len = suf.unicode_len();
    if suf_len == 0 {
        return cur;
    }
    while str_has_suffix(cur.as_str(), suf)
        invariant
            suf_len == suf@.len(),
            suf_len > 0,
            spec_strip_suffix_rep(cur@, suf@) == spec_strip_suffix_rep(s@, suf@),
        decreases cur@.len(),
    {
        let keep = cur.unicode_len() - suf_len;
        let next = cur.as_str().substring_char(0, keep);
        cur = next.to_owned();
    }
    cur
}

fn scale_of_name(name: &str, format: &str) -> (r: i32)
    ensures
        r as int == spec_scale_of_name(name@, format@),
{
    let mut suf = "x.".to_owned();
    suf.append(format);
    let stripped = strip_suffix_rep(name, suf.as_str());
    match parse_i32_digits(stripped.as_str()) {
        Some(v) => v,
        None => 1,
    }
}

fn clone_image(img: &Image) -> (r: Image)
    ensures
        r@ == img@,
{
    Image {
        url: img.url.clone(),
        mime: img.mime.clone(),
        size: img.size,
        scale: img.scale,
        width: img.width,
        frame_count: img.frame_count,
    }
}

fn images_from_host(host: &TrendingHost, animated: bool) -> (r: Vec<Image>)
    ensures
        r.deep_view() == host@.files.map_values(
            |f: TrendingFileV| spec_image_from_file(host@.url, f, animated),
        ),
{
    let mut out: Vec<Image> = Vec::new();
    let mut i: usize = 0;
    while i < host.files.len()
        invariant
            i <= host.files.len(),
            out.deep_view() =~= host@.files.subrange(0, i as int).map_values(
                |f: TrendingFileV| spec_image_from_file(host@.url, f, animated),
            ),
        decreases host.files.len() - i,
    {
        let f = &host.files[i];
        let mut url = "https:".to_owned();
        url.append(host.url.as_str());
        url.append("/");
        url.append(f.name.as_str());
        let mut mime = "image/".to_owned();
        mime.append(f.format.as_str());
        let scale = scale_of_name(f.name.as_str(), f.format.as_str());
        let img = Image {
            url,
            mime,
            size: 0,
            scale,
            width: f.width,
            frame_count: if animated {
                2
            } else {
                1
            },
        };
        out.push(img);
        proof {
            let m = |f: TrendingFileV| spec_image_from_file(host@.url, f, animated);
            assert(host@.files.subrange(0, i + 1 as int).map_values(m) =~= host@.files.subrange(
                0,
                i as int,
            ).map_values(m).push(m(host@.files[i as int])));
        }
        i += 1;
    }
    proof {
        assert(host@.files.subrange(0, host@.files.len() as int) =~= host@.files);
    }
    out
}

/// Resolves a raw record to its variant list: the explicit list when
/// present, else the list derived from the host shape; a record with
/// neither has no image source and yields nothing.
pub fn resolve_image_list(e: &Emote) -> (r: Option<Vec<Image>>)
    ensures
        match r {
            Some(v) => spec_resolve_images(e@) == Some(v.deep_view()),
            None => spec_resolve_images(e@) is None,
        },
{
    match &e.images {
        Some(imgs) => {
            let mut out: Vec<Image> = Vec::new();
            let mut i: usize = 0;
            while i < imgs.len()
                invariant
                    i <= imgs.len(),
                    out.deep_view() =~= imgs.deep_view().subrange(0, i as int),
                decreases imgs.len() - i,
            {
                out.push(clone_image(&imgs[i]));
                proof {
                    assert(out.deep_view() =~= imgs.deep_view().subrange(0, i as int).push(
                        imgs.deep_view()[i as int],
                    ));
                    assert(imgs.deep_view().subrange(0, i + 1 as int) =~= imgs.deep_view().subrange(
                        0,
                        i as int,
                    ).push(imgs.deep_view()[i as int]));
                }
                i += 1;
            }
            proof {
                assert(imgs.deep_view().subrange(0, imgs.deep_view().len() as int)
                    =~= imgs.deep_view());
                assert(out.deep_view() =~= imgs.deep_view());
            }
            Some(out)
        },
        None => {
            match &e.host {
                Some(h) => {
                    let animated = match e.animated {
                        Some(b) => b,
                        None => false,
                    };
                    Some(images_from_host(h, animated))
                },
                None => None,
            }
        },
    }
}

} // verus!
