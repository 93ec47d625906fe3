//! Extraction of one image per page from a document's pages.

use vstd::prelude::*;
use crate::decode::{decodable_size, decode_outcome, decode_pdf_image, holds_exact_pixels, is_decodable, is_raw_cmyk};
use crate::model::{PageData, PdfImageData};
use crate::types::DecodedImage;

verus! {

/// The identity (object and generation number) of an image XObject.
pub open spec fn image_id(img: PdfImageData) -> (u32, u16) {
    (img.id_num, img.id_gen)
}

/// The identities of the first `n` images of `imgs`.
pub open spec fn ids_of(imgs: Seq<PdfImageData>, n: int) -> Set<(u32, u16)> {
    Set::new(|id: (u32, u16)| exists|i: int| 0 <= i < n && #[trigger] image_id(imgs[i]) == id)
}

/// The images a page lists (none when listing failed).
pub open spec fn page_images(page: PageData) -> Seq<PdfImageData> {
    match page.images {
        Ok(v) => v@,
        Err(_) => Seq::empty(),
    }
}

/// The identities of all images listed by the first `p` pages.
pub open spec fn ids_before_page(pages: Seq<PageData>, p: int) -> Set<(u32, u16)>
    decreases p,
{
    if p <= 0 {
        Set::empty()
    } else {
        ids_before_page(pages, p - 1).union(ids_of(page_images(pages[p - 1]), page_images(pages[p - 1]).len() as int))
    }
}

/// Whether image `i` of page `p` is seen for the first time: an image
/// XObject shared by several pages, or listed twice, is decoded once.
pub open spec fn is_fresh(pages: Seq<PageData>, p: int, i: int) -> bool {
    let imgs = page_images(pages[p]);
    !ids_before_page(pages, p).contains(image_id(imgs[i])) && !ids_of(imgs, i).contains(image_id(imgs[i]))
}

/// The number of pixels of an image.
pub open spec fn area(img: DecodedImage) -> int {
    img.width * img.height
}

/// The image kept for a page from the decoding results `rs` of its first
/// `n` images: the first successfully decoded fresh image of the largest
/// area.
pub open spec fn best_of(pages: Seq<PageData>, p: int, rs: Seq<Result<DecodedImage, String>>, n: int) -> Option<
    DecodedImage,
>
    decreases n,
{
    if n <= 0 {
        None
    } else {
        let b = best_of(pages, p, rs, n - 1);
        if is_fresh(pages, p, n - 1) && rs[n - 1] is Ok && (b is None || area(rs[n - 1]->Ok_0) > area(b->0)) {
            Some(rs[n - 1]->Ok_0)
        } else {
            b
        }
    }
}

/// The images kept for the first `p` pages, with their page numbers;
/// pages with no successfully decoded fresh image are left out.
pub open spec fn kept_images(pages: Seq<PageData>, rs: Seq<Seq<Result<DecodedImage, String>>>, p: int) -> Seq<
    (u32, DecodedImage),
>
    decreases p,
{
    if p <= 0 {
        Seq::empty()
    } else {
        let prefix = kept_images(pages, rs, p - 1);
        match best_of(pages, p - 1, rs[p - 1], page_images(pages[p - 1]).len() as int) {
            Some(b) => prefix.push((pages[p - 1].page_num, b)),
            None => prefix,
        }
    }
}

/// `rs` holds, for each page and each fresh image of it, a possible
/// result of decoding that image.
pub open spec fn valid_results<F: Fn(u8, u8, u8, u8) -> (u8, u8, u8)>(
    pages: Seq<PageData>,
    cmyk_to_rgb: F,
    rs: Seq<Seq<Result<DecodedImage, String>>>,
) -> bool {
    &&& rs.len() == pages.len()
    &&& forall|p: int|
        0 <= p < pages.len() ==> #[trigger] rs[p].len() == page_images(pages[p]).len() && forall|i: int|
            0 <= i < rs[p].len() && is_fresh(pages, p, i) ==> decode_outcome(
                page_images(pages[p])[i],
                pages[p].dpi_bits,
                cmyk_to_rgb,
                #[trigger] rs[p][i],
            )
}

/// The first page, from `p` on, whose images could not be listed.
pub open spec fn first_failed_page(pages: Seq<PageData>, p: int) -> Option<int>
    decreases pages.len() - p,
{
    if p < 0 || p >= pages.len() {
        None
    } else if pages[p].images is Err {
        Some(p)
    } else {
        first_failed_page(pages, p + 1)
    }
}

/// Every image of every page has a size that decoding can handle.
pub open spec fn pages_decodable(pages: Seq<PageData>) -> bool {
    forall|p: int, i: int|
        0 <= p < pages.len() && 0 <= i < page_images(pages[p]).len() ==> decodable_size(
            #[trigger] page_images(pages[p])[i],
        )
}

proof fn lemma_best_of_prefix(
    pages: Seq<PageData>,
    p: int,
    rs: Seq<Result<DecodedImage, String>>,
    rs2: Seq<Result<DecodedImage, String>>,
    n: int,
)
    requires
        forall|j: int| 0 <= j < n ==> rs[j] == rs2[j],
    ensures
        best_of(pages, p, rs, n) == best_of(pages, p, rs2, n),
    decreases n,
{
    if n > 0 {
        lemma_best_of_prefix(pages, p, rs, rs2, n - 1);
    }
}

proof fn lemma_kept_prefix(
    pages: Seq<PageData>,
    rs: Seq<Seq<Result<DecodedImage, String>>>,
    rs2: Seq<Seq<Result<DecodedImage, String>>>,
    p: int,
)
    requires
        forall|q: int| 0 <= q < p ==> rs[q] == rs2[q],
    ensures
        kept_images(pages, rs, p) == kept_images(pages, rs2, p),
    decreases p,
{
    if p > 0 {
        lemma_kept_prefix(pages, rs, rs2, p - 1);
    }
}

proof fn lemma_ids_of_push(imgs: Seq<PdfImageData>, i: int)
    requires
        0 <= i < imgs.len(),
    ensures
        ids_of(imgs, i + 1) == ids_of(imgs, i).insert(image_id(imgs[i])),
{
    assert forall|id: (u32, u16)| ids_of(imgs, i + 1).contains(id) <==> ids_of(imgs, i).insert(
        image_id(imgs[i]),
    ).contains(id) by {
        if ids_of(imgs, i + 1).contains(id) && id != image_id(imgs[i]) {
            let j = choose|j: int| 0 <= j < i + 1 && #[trigger] image_id(imgs[j]) == id;
            assert(j < i);
        }
        if ids_of(imgs, i).contains(id) {
            let j = choose|j: int| 0 <= j < i && #[trigger] image_id(imgs[j]) == id;
            assert(0 <= j < i + 1 && image_id(imgs[j]) == id);
        }
        if id == image_id(imgs[i]) {
            assert(0 <= i < i + 1 && image_id(imgs[i]) == id);
        }
    }
    assert(ids_of(imgs, i + 1) =~= ids_of(imgs, i).insert(image_id(imgs[i])));
}

/// Whether no image of any page is read as raw CMYK samples.
pub open spec fn no_raw_cmyk(pages: Seq<PageData>) -> bool {
    forall|p: int, i: int|
        0 <= p < pages.len() && 0 <= i < page_images(pages[p]).len() ==> !is_raw_cmyk(
            #[trigger] page_images(pages[p])[i],
        )
}

/// The image kept for a page is the largest: among the page's fresh
/// images that decode, it has the largest pixel count `width * height`,
/// no earlier one has as many pixels, and a page keeps an image exactly
/// when one of its fresh images decodes.
pub proof fn lemma_best_of_is_largest(pages: Seq<PageData>, p: int, rs: Seq<Result<DecodedImage, String>>, n: int)
    requires
        0 <= n <= rs.len(),
    ensures
        best_of(pages, p, rs, n) is None <==> (forall|k: int|
            0 <= k < n && is_fresh(pages, p, k) ==> #[trigger] rs[k] is Err),
        best_of(pages, p, rs, n) matches Some(b) ==> exists|j: int|
            0 <= j < n && is_fresh(pages, p, j) && rs[j] == Ok::<DecodedImage, String>(b) && (forall|k: int|
                0 <= k < n && is_fresh(pages, p, k) && #[trigger] rs[k] is Ok ==> rs[k]->Ok_0.width
                    * rs[k]->Ok_0.height <= b.width * b.height) && (forall|k: int|
                0 <= k < j && is_fresh(pages, p, k) && #[trigger] rs[k] is Ok ==> rs[k]->Ok_0.width
                    * rs[k]->Ok_0.height < b.width * b.height),
    decreases n,
{
    if n > 0 {
        lemma_best_of_is_largest(pages, p, rs, n - 1);
        let b = best_of(pages, p, rs, n - 1);
        let last = n - 1;
        if is_fresh(pages, p, last) && rs[last] is Ok && (b is None || area(rs[last]->Ok_0) > area(b->0)) {
            let x = rs[last]->Ok_0;
            assert(rs[last] == Ok::<DecodedImage, String>(x));
            if b is Some {
                let bb = b->0;
                let j = choose|j: int|
                    0 <= j < n - 1 && is_fresh(pages, p, j) && rs[j] == Ok::<DecodedImage, String>(bb) && (forall|
                        k: int,
                    |
                        0 <= k < n - 1 && is_fresh(pages, p, k) && #[trigger] rs[k] is Ok ==> rs[k]->Ok_0.width
                            * rs[k]->Ok_0.height <= bb.width * bb.height) && (forall|k: int|
                        0 <= k < j && is_fresh(pages, p, k) && #[trigger] rs[k] is Ok ==> rs[k]->Ok_0.width
                            * rs[k]->Ok_0.height < bb.width * bb.height);
                assert forall|k: int| 0 <= k < n && is_fresh(pages, p, k) && #[trigger] rs[k] is Ok implies rs[k]->Ok_0.width
                    * rs[k]->Ok_0.height <= x.width * x.height by {
                    if k < n - 1 {
                        assert(rs[k]->Ok_0.width * rs[k]->Ok_0.height <= bb.width * bb.height);
                    }
                }
                assert forall|k: int| 0 <= k < last && is_fresh(pages, p, k) && #[trigger] rs[k] is Ok implies rs[k]->Ok_0.width
                    * rs[k]->Ok_0.height < x.width * x.height by {
                    assert(rs[k]->Ok_0.width * rs[k]->Ok_0.height <= bb.width * bb.height);
                }
            } else {
                assert forall|k: int| 0 <= k < n && is_fresh(pages, p, k) && #[trigger] rs[k] is Ok implies rs[k]->Ok_0.width
                    * rs[k]->Ok_0.height <= x.width * x.height by {
                    if k < n - 1 {
                        assert(rs[k] is Err);
                    }
                }
                assert forall|k: int| 0 <= k < last && is_fresh(pages, p, k) && #[trigger] rs[k] is Ok implies rs[k]->Ok_0.width
                    * rs[k]->Ok_0.height < x.width * x.height by {
                    assert(rs[k] is Err);
                }
            }
            assert(0 <= last < n && is_fresh(pages, p, last) && rs[last] == Ok::<DecodedImage, String>(x));
        } else {
            if b is Some {
                let bb = b->0;
                let j = choose|j: int|
                    0 <= j < n - 1 && is_fresh(pages, p, j) && rs[j] == Ok::<DecodedImage, String>(bb) && (forall|
                        k: int,
                    |
                        0 <= k < n - 1 && is_fresh(pages, p, k) && #[trigger] rs[k] is Ok ==> rs[k]->Ok_0.width
                            * rs[k]->Ok_0.height <= bb.width * bb.height) && (forall|k: int|
                        0 <= k < j && is_fresh(pages, p, k) && #[trigger] rs[k] is Ok ==> rs[k]->Ok_0.width
                            * rs[k]->Ok_0.height < bb.width * bb.height);
                assert forall|k: int| 0 <= k < n && is_fresh(pages, p, k) && #[trigger] rs[k] is Ok implies rs[k]->Ok_0.width
                    * rs[k]->Ok_0.height <= bb.width * bb.height by {
                    if k == last {
                        assert(area(rs[last]->Ok_0) <= area(bb));
                    }
                }
                assert(0 <= j < n && is_fresh(pages, p, j) && rs[j] == Ok::<DecodedImage, String>(bb));
            } else {
                assert forall|k: int| 0 <= k < n && is_fresh(pages, p, k) implies #[trigger] rs[k] is Err by {
                    if k == last {
                        assert(!(rs[last] is Ok));
                    }
                }
            }
        }
    }
}

/// The image kept for a page is the successful result of one of its
/// fresh images.
proof fn lemma_best_of_source(pages: Seq<PageData>, p: int, rs: Seq<Result<DecodedImage, String>>, n: int)
    ensures
        best_of(pages, p, rs, n) matches Some(b) ==> exists|j: int|
            0 <= j < n && is_fresh(pages, p, j) && #[trigger] rs[j] == Ok::<DecodedImage, String>(b),
    decreases n,
{
    if n > 0 {
        lemma_best_of_source(pages, p, rs, n - 1);
        let b = best_of(pages, p, rs, n - 1);
        if is_fresh(pages, p, n - 1) && rs[n - 1] is Ok && (b is None || area(rs[n - 1]->Ok_0) > area(b->0)) {
            assert(rs[n - 1] == Ok::<DecodedImage, String>(rs[n - 1]->Ok_0));
        }
    }
}

/// Every image extraction keeps holds exactly its pixels (three bytes
/// each for RGB, one for gray), so that later stages can rely on the
/// buffer matching the size.  Raw CMYK samples are converted without
/// their count being checked, so documents with such images are left
/// out.
pub proof fn lemma_kept_images_hold_pixels<F: Fn(u8, u8, u8, u8) -> (u8, u8, u8)>(
    pages: Seq<PageData>,
    cmyk_to_rgb: F,
    rs: Seq<Seq<Result<DecodedImage, String>>>,
    p: int,
)
    requires
        valid_results(pages, cmyk_to_rgb, rs),
        no_raw_cmyk(pages),
        0 <= p <= pages.len(),
    ensures
        forall|k: int|
            0 <= k < kept_images(pages, rs, p).len() ==> holds_exact_pixels(#[trigger] kept_images(pages, rs, p)[k].1),
    decreases p,
{
    if p > 0 {
        lemma_kept_images_hold_pixels(pages, cmyk_to_rgb, rs, p - 1);
        let q = p - 1;
        let n = page_images(pages[q]).len() as int;
        lemma_best_of_source(pages, q, rs[q], n);
        match best_of(pages, q, rs[q], n) {
            Some(b) => {
                let j = choose|j: int|
                    0 <= j < n && is_fresh(pages, q, j) && #[trigger] rs[q][j] == Ok::<DecodedImage, String>(b);
                assert(rs[q].len() == n);
                assert(decode_outcome(page_images(pages[q])[j], pages[q].dpi_bits, cmyk_to_rgb, rs[q][j]));
                assert(!is_raw_cmyk(page_images(pages[q])[j]));
                assert(holds_exact_pixels(b));
                let prefix = kept_images(pages, rs, q);
                assert(kept_images(pages, rs, p) == prefix.push((pages[q].page_num, b)));
            },
            None => {},
        }
    }
}

/// Whether page numbers increase along the pages (as a document's page
/// tree numbers them).
pub open spec fn increasing_page_numbers(pages: Seq<PageData>) -> bool {
    forall|i: int, j: int| 0 <= i < j < pages.len() ==> #[trigger] pages[i].page_num < #[trigger] pages[j].page_num
}

/// Extraction keeps at most one image per page, in page order: each kept
/// image carries the number of one of the pages, and the numbers
/// increase along the result.
pub proof fn lemma_kept_images_in_page_order(
    pages: Seq<PageData>,
    rs: Seq<Seq<Result<DecodedImage, String>>>,
    p: int,
)
    requires
        increasing_page_numbers(pages),
        0 <= p <= pages.len(),
    ensures
        kept_images(pages, rs, p).len() <= p,
        forall|k: int|
            0 <= k < kept_images(pages, rs, p).len() ==> exists|q: int|
                0 <= q < p && (#[trigger] kept_images(pages, rs, p)[k]).0 == pages[q].page_num,
        forall|k1: int, k2: int|
            0 <= k1 < k2 < kept_images(pages, rs, p).len() ==> (#[trigger] kept_images(pages, rs, p)[k1]).0
                < (#[trigger] kept_images(pages, rs, p)[k2]).0,
    decreases p,
{
    if p > 0 {
        lemma_kept_images_in_page_order(pages, rs, p - 1);
        let prefix = kept_images(pages, rs, p - 1);
        let kept = kept_images(pages, rs, p);
        assert forall|k: int| 0 <= k < prefix.len() implies (#[trigger] prefix[k]).0 < pages[p - 1].page_num by {
            let q = choose|q: int| 0 <= q < p - 1 && prefix[k].0 == pages[q].page_num;
            assert(pages[q].page_num < pages[p - 1].page_num);
        }
        assert forall|k: int| 0 <= k < kept.len() implies exists|q: int|
            0 <= q < p && (#[trigger] kept[k]).0 == pages[q].page_num by {
            if k < prefix.len() {
                assert(kept[k] == prefix[k]);
                let q = choose|q: int| 0 <= q < p - 1 && prefix[k].0 == pages[q].page_num;
                assert(0 <= q < p && kept[k].0 == pages[q].page_num);
            } else {
                assert(kept[k].0 == pages[p - 1].page_num);
            }
        }
        assert forall|k1: int, k2: int| 0 <= k1 < k2 < kept.len() implies (#[trigger] kept[k1]).0
            < (#[trigger] kept[k2]).0 by {
            if k2 < prefix.len() {
                assert(kept[k1] == prefix[k1] && kept[k2] == prefix[k2]);
            } else {
                assert(kept[k1] == prefix[k1]);
                assert(prefix[k1].0 < pages[p - 1].page_num);
            }
        }
    }
}

fn pixel_count(w: u32, h: u32) -> (r: u64)
    ensures
        r == w * h,
{
    assert(w * h <= 0xffff_ffff * 0xffff_ffff) by (nonlinear_arith)
        requires
            w <= 0xffff_ffff,
            h <= 0xffff_ffff,
    ;
    (w as u64) * (h as u64)
}

fn contains_id(seen: &Vec<(u32, u16)>, id: (u32, u16)) -> (r: bool)
    ensures
        r == seen@.contains(id),
{
    let mut i: usize = 0;
    while i < seen.len()
        invariant
            i <= seen.len(),
            forall|j: int| 0 <= j < i ==> seen@[j] != id,
        decreases seen.len() - i,
    {
        if seen[i].0 == id.0 && seen[i].1 == id.1 {
            assert(seen@[i as int] == id);
            return true;
        }
        i += 1;
    }
    false
}

/// Whether every image of every page is within what decoding handles,
/// for callers to test before extracting.
pub fn all_decodable(pages: &Vec<PageData>) -> (r: bool)
    ensures
        r == pages_decodable(pages@),
{
    let mut p: usize = 0;
    while p < pages.len()
        invariant
            p <= pages.len(),
            forall|q: int, i: int|
                0 <= q < p && 0 <= i < page_images(pages@[q]).len() ==> decodable_size(
                    #[trigger] page_images(pages@[q])[i],
                ),
        decreases pages.len() - p,
    {
        match &pages[p].images {
            Ok(imgs) => {
                let mut i: usize = 0;
                while i < imgs.len()
                    invariant
                        p < pages.len(),
                        i <= imgs.len(),
                        imgs@ == page_images(pages@[p as int]),
                        forall|j: int| 0 <= j < i ==> decodable_size(#[trigger] imgs@[j]),
                    decreases imgs.len() - i,
                {
                    if !is_decodable(&imgs[i]) {
                        assert(!decodable_size(page_images(pages@[p as int])[i as int]));
                        return false;
                    }
                    i += 1;
                }
            },
            Err(_) => {},
        }
        p += 1;
    }
    true
}

/// Decodes the images of each page and keeps, per page, the largest one
/// that decodes (the first of equal size); an image XObject listed more
/// than once is decoded at its first listing only, and images that fail
/// to decode are skipped.  Fails, with the message of the first page
/// whose images could not be listed, if there is one.
pub fn extract_all_images<F: Fn(u8, u8, u8, u8) -> (u8, u8, u8)>(pages: &Vec<PageData>, cmyk_to_rgb: &F) -> (r: Result<
    Vec<(u32, DecodedImage)>,
    String,
>)
    requires
        pages_decodable(pages@),
        forall|c: u8, m: u8, y: u8, k: u8| #[trigger] cmyk_to_rgb.requires((c, m, y, k)),
    ensures
        match first_failed_page(pages@, 0) {
            Some(q) => r matches Err(e) && e@ == "Failed to get page images: "@ + pages@[q].images->Err_0@,
            None => r matches Ok(v) && exists|rs: Seq<Seq<Result<DecodedImage, String>>>|
                valid_results(pages@, *cmyk_to_rgb, rs) && v@ == kept_images(pages@, rs, pages@.len() as int),
        },
{
    let mut out: Vec<(u32, DecodedImage)> = Vec::new();
    let mut seen: Vec<(u32, u16)> = Vec::new();
    let ghost mut rs: Seq<Seq<Result<DecodedImage, String>>> = Seq::empty();
    let mut p: usize = 0;
    while p < pages.len()
        invariant
            p <= pages.len(),
            pages_decodable(pages@),
            forall|c: u8, m: u8, y: u8, k: u8| #[trigger] cmyk_to_rgb.requires((c, m, y, k)),
            first_failed_page(pages@, 0) == first_failed_page(pages@, p as int),
            rs.len() == p,
            forall|q: int|
                0 <= q < p ==> #[trigger] rs[q].len() == page_images(pages@[q]).len() && forall|i: int|
                    0 <= i < rs[q].len() && is_fresh(pages@, q, i) ==> decode_outcome(
                        page_images(pages@[q])[i],
                        pages@[q].dpi_bits,
                        *cmyk_to_rgb,
                        #[trigger] rs[q][i],
                    ),
            out@ == kept_images(pages@, rs, p as int),
            forall|id: (u32, u16)| seen@.contains(id) <==> ids_before_page(pages@, p as int).contains(id),
        decreases pages.len() - p,
    {
        let page = &pages[p];
        let imgs: &Vec<PdfImageData> = match &page.images {
            Err(e) => {
                let mut m = String::from_str("Failed to get page images: ");
                m.append(e.as_str());
                return Err(m);
            },
            Ok(v) => v,
        };
        assert(imgs@ == page_images(pages@[p as int]));
        let mut best: Option<DecodedImage> = None;
        let ghost mut page_rs: Seq<Result<DecodedImage, String>> = Seq::empty();
        let mut i: usize = 0;
        while i < imgs.len()
            invariant
                p < pages.len(),
                i <= imgs.len(),
                page == pages@[p as int],
                imgs@ == page_images(pages@[p as int]),
                pages_decodable(pages@),
                forall|c: u8, m: u8, y: u8, k: u8| #[trigger] cmyk_to_rgb.requires((c, m, y, k)),
                page_rs.len() == i,
                forall|j: int|
                    0 <= j < i && is_fresh(pages@, p as int, j) ==> decode_outcome(
                        imgs@[j],
                        page.dpi_bits,
                        *cmyk_to_rgb,
                        #[trigger] page_rs[j],
                    ),
                best == best_of(pages@, p as int, page_rs, i as int),
                forall|id: (u32, u16)|
                    seen@.contains(id) <==> (ids_before_page(pages@, p as int).contains(id) || ids_of(
                        imgs@,
                        i as int,
                    ).contains(id)),
            decreases imgs.len() - i,
        {
            let img = &imgs[i];
            let id = (img.id_num, img.id_gen);
            let already = contains_id(&seen, id);
            proof {
                assert(id == image_id(imgs@[i as int]));
                assert(is_fresh(pages@, p as int, i as int) == !already);
            }
            let ghost prev_rs = page_rs;
            let ghost old_seen = seen@;
            if already {
                proof {
                    page_rs = page_rs.push(vstd::pervasive::arbitrary());
                }
            } else {
                seen.push(id);
                proof {
                    assert(decodable_size(page_images(pages@[p as int])[i as int]));
                }
                let res = decode_pdf_image(img, page.dpi_bits, cmyk_to_rgb);
                proof {
                    page_rs = page_rs.push(res);
                }
                match res {
                    Ok(d) => {
                        let larger = match &best {
                            None => true,
                            Some(b) => pixel_count(d.width, d.height) > pixel_count(b.width, b.height),
                        };
                        if larger {
                            best = Some(d);
                        }
                    },
                    Err(_) => {},
                }
            }
            proof {
                lemma_best_of_prefix(pages@, p as int, prev_rs, page_rs, i as int);
                lemma_ids_of_push(imgs@, i as int);
                assert forall|x: (u32, u16)| seen@.contains(x) <==> (ids_before_page(pages@, p as int).contains(x)
                    || ids_of(imgs@, i + 1).contains(x)) by {
                    if !already {
                        assert(seen@ == old_seen.push(id));
                        if x == id {
                            assert(seen@[seen@.len() - 1] == x);
                        }
                        if old_seen.contains(x) {
                            let j = choose|j: int| 0 <= j < old_seen.len() && old_seen[j] == x;
                            assert(seen@[j] == x);
                        }
                        if seen@.contains(x) && x != id {
                            let j = choose|j: int| 0 <= j < seen@.len() && seen@[j] == x;
                            assert(old_seen[j] == x);
                        }
                    }
                }
            }
            i += 1;
        }
        let ghost old_rs = rs;
        proof {
            rs = rs.push(page_rs);
            lemma_kept_prefix(pages@, old_rs, rs, p as int);
            assert(ids_of(imgs@, imgs@.len() as int) == ids_of(page_images(pages@[p as int]), page_images(pages@[p as int]).len() as int));
        }
        match best {
            Some(b) => {
                out.push((page.page_num, b));
            },
            None => {},
        }
        p += 1;
    }
    proof {
        assert(valid_results(pages@, *cmyk_to_rgb, rs));
    }
    Ok(out)
}

} // verus!
