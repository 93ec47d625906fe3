//! Serialisation of compressed page images into a PDF 1.4 file: one
//! page per image, each page holding its image XObject and a content
//! stream that draws it, followed by the cross-reference table.

use vstd::prelude::*;
use vstd::utf8::encode_utf8;
use crate::text::{dec_digits, dec_digits_padded, push_decimal};
use crate::types::CompressedImage;

verus! {

/// How a page is laid out, as the decimal texts written into the file:
/// the page size in points (`page_w`, `page_h`) and the placement of the
/// image on it (scale `sw`, `sh` and offset `tx`, `ty`).
#[derive(Debug, Clone)]
pub struct PageLayout {
    pub page_w: String,
    pub page_h: String,
    pub sw: String,
    pub sh: String,
    pub tx: String,
    pub ty: String,
}

/// The bytes of a text.
pub open spec fn t(s: Seq<char>) -> Seq<u8> {
    encode_utf8(s)
}

/// The file header: the version line and a comment of four bytes above
/// 127 that marks the file as binary.
pub open spec fn header_bytes() -> Seq<u8> {
    seq![0x25u8, 0x50, 0x44, 0x46, 0x2d, 0x31, 0x2e, 0x34, 0x0a, 0x25, 0xe2, 0xe3, 0xcf, 0xd3, 0x0a]
}

/// The opening line of object `k`: `k 0 obj`.
pub open spec fn obj_open(k: nat) -> Seq<u8> {
    dec_digits(k) + t(" 0 obj\n"@)
}

/// Object 1, the document catalog.
pub open spec fn catalog_obj() -> Seq<u8> {
    obj_open(1) + t("<< /Type /Catalog /Pages 2 0 R >>\nendobj\n"@)
}

/// The references to the first `n` page objects (3, 6, 9, ...).
pub open spec fn kids(n: nat) -> Seq<u8>
    decreases n,
{
    if n == 0 {
        Seq::empty()
    } else {
        kids((n - 1) as nat) + dec_digits((3 + 3 * (n - 1)) as nat) + t(" 0 R "@)
    }
}

/// Object 2, the page tree with `n` pages.
pub open spec fn pages_obj(n: nat) -> Seq<u8> {
    obj_open(2) + t("<< /Type /Pages /Count "@) + dec_digits(n) + t(" /Kids ["@) + kids(n) + t("] >>\nendobj\n"@)
}

/// The page object of image `i`.
pub open spec fn page_obj(lay: PageLayout, i: nat) -> Seq<u8> {
    obj_open(3 + 3 * i) + t("<< /Type /Page /Parent 2 0 R /MediaBox [0 0 "@) + t(lay.page_w@) + t(" "@) + t(
        lay.page_h@,
    ) + t("] /Resources << /XObject << /Im0 "@) + dec_digits(4 + 3 * i) + t(" 0 R >> >> /Contents "@)
        + dec_digits(5 + 3 * i) + t(" 0 R >>\nendobj\n"@)
}

/// The decode parameters of a CCITT image: Group 4 (`/K -1`) with the
/// image's columns and rows.
pub open spec fn ccitt_parms(img: CompressedImage) -> Seq<u8> {
    if img.is_ccitt {
        t(" /DecodeParms << /K -1 /Columns "@) + dec_digits(img.width as nat) + t(" /Rows "@) + dec_digits(
            img.height as nat,
        ) + t(" >>"@)
    } else {
        Seq::empty()
    }
}

/// The entries of an image XObject's dictionary that describe the
/// image: size, color space, bits per component and filter.
pub open spec fn image_dict(img: CompressedImage) -> Seq<u8> {
    t("<< /Type /XObject /Subtype /Image /Width "@) + dec_digits(img.width as nat) + t(" /Height "@) + dec_digits(
        img.height as nat,
    ) + t(" /ColorSpace /"@) + t(img.color_space@) + t(" /BitsPerComponent "@) + dec_digits(
        img.bits_per_component as nat,
    ) + t(" /Filter /"@) + t(img.filter@) + ccitt_parms(img)
}

/// The image XObject of image `i`, embedding its compressed data.
pub open spec fn image_obj(img: CompressedImage, i: nat) -> Seq<u8> {
    obj_open(4 + 3 * i) + image_dict(img) + t(" /Length "@) + dec_digits(img.data@.len()) + t(" >>\nstream\n"@)
        + img.data@ + t("\nendstream\nendobj\n"@)
}

/// The content stream of a page: draw the image scaled by `sw`, `sh` and
/// moved by `tx`, `ty`.
pub open spec fn content_text(lay: PageLayout) -> Seq<u8> {
    t("q\n"@) + t(lay.sw@) + t(" 0 0 "@) + t(lay.sh@) + t(" "@) + t(lay.tx@) + t(" "@) + t(lay.ty@) + t(
        " cm\n/Im0 Do\nQ\n"@,
    )
}

/// The content-stream object of image `i`.
pub open spec fn content_obj(lay: PageLayout, i: nat) -> Seq<u8> {
    obj_open(5 + 3 * i) + t("<< /Length "@) + dec_digits(content_text(lay).len()) + t(" >>\nstream\n"@)
        + content_text(lay) + t("\nendstream\nendobj\n"@)
}

/// The objects of the file in order: catalog, page tree, then for each
/// image its page, image and content objects.  Object `j + 1` is at
/// index `j`.
#[verifier::opaque]
pub open spec fn pdf_objects(imgs: Seq<CompressedImage>, lays: Seq<PageLayout>) -> Seq<Seq<u8>> {
    Seq::new(
        (2 + 3 * imgs.len()) as nat,
        |j: int|
            if j == 0 {
                catalog_obj()
            } else if j == 1 {
                pages_obj(imgs.len())
            } else {
                let i = (j - 2) / 3;
                if (j - 2) % 3 == 0 {
                    page_obj(lays[i], i as nat)
                } else if (j - 2) % 3 == 1 {
                    image_obj(imgs[i], i as nat)
                } else {
                    content_obj(lays[i], i as nat)
                }
            },
    )
}

/// The catalog and page tree come first, and the file has three objects
/// per image.
pub proof fn lemma_objects_start(imgs: Seq<CompressedImage>, lays: Seq<PageLayout>)
    ensures
        pdf_objects(imgs, lays).len() == 2 + 3 * imgs.len(),
        pdf_objects(imgs, lays)[0] == catalog_obj(),
        pdf_objects(imgs, lays)[1] == pages_obj(imgs.len()),
{
    reveal(pdf_objects);
}

/// The page, image and content objects of image `i`.
pub proof fn lemma_objects_of_image(imgs: Seq<CompressedImage>, lays: Seq<PageLayout>, i: int)
    requires
        0 <= i < imgs.len(),
    ensures
        pdf_objects(imgs, lays)[2 + 3 * i] == page_obj(lays[i], i as nat),
        pdf_objects(imgs, lays)[3 + 3 * i] == image_obj(imgs[i], i as nat),
        pdf_objects(imgs, lays)[4 + 3 * i] == content_obj(lays[i], i as nat),
{
    reveal(pdf_objects);
    assert((3 * i) / 3 == i && (3 * i) % 3 == 0);
    assert((3 * i + 1) / 3 == i && (3 * i + 1) % 3 == 1);
    assert((3 * i + 2) / 3 == i && (3 * i + 2) % 3 == 2);
}

/// The content object of page `i` draws the page's image once, scaled by
/// `sw` horizontally and `sh` vertically and moved right by `tx` and up
/// by `ty`: its stream is `q`, the matrix `sw 0 0 sh tx ty cm` (the
/// horizontal offset fifth, the vertical one sixth), `/Im0 Do` and `Q`,
/// and its `/Length` is the byte count of that stream.
pub proof fn lemma_content_stream(imgs: Seq<CompressedImage>, lays: Seq<PageLayout>, i: int)
    requires
        0 <= i < imgs.len(),
    ensures
        ({
            let lay = lays[i];
            let stream = t("q\n"@) + t(lay.sw@) + t(" 0 0 "@) + t(lay.sh@) + t(" "@) + t(lay.tx@) + t(" "@) + t(
                lay.ty@,
            ) + t(" cm\n/Im0 Do\nQ\n"@);
            pdf_objects(imgs, lays)[4 + 3 * i] == dec_digits((5 + 3 * i) as nat) + t(" 0 obj\n"@) + t(
                "<< /Length "@,
            ) + dec_digits(stream.len()) + t(" >>\nstream\n"@) + stream + t("\nendstream\nendobj\n"@)
        }),
{
    lemma_objects_of_image(imgs, lays, i);
}

/// The byte sequences of `parts`, one after the other.
pub open spec fn concat(parts: Seq<Seq<u8>>) -> Seq<u8>
    decreases parts.len(),
{
    if parts.len() == 0 {
        Seq::empty()
    } else {
        concat(parts.drop_last()) + parts.last()
    }
}

/// The file offset of object `j + 1` when the file starts at `base`.
pub open spec fn obj_offset(base: nat, objs: Seq<Seq<u8>>, j: int) -> nat {
    base + header_bytes().len() + concat(objs.take(j)).len()
}

/// The cross-reference entries of the given offsets, ten digits each.
pub open spec fn xref_entries(offsets: Seq<nat>) -> Seq<u8>
    decreases offsets.len(),
{
    if offsets.len() == 0 {
        Seq::empty()
    } else {
        xref_entries(offsets.drop_last()) + dec_digits_padded(offsets.last(), 10) + t(" 00000 n \n"@)
    }
}

/// The cross-reference table and trailer for objects at `offsets`, the
/// table starting at `xref_offset`.
pub open spec fn xref_and_trailer(offsets: Seq<nat>, xref_offset: nat) -> Seq<u8> {
    let total = (offsets.len() + 1) as nat;
    xref_head(total) + xref_entries(offsets) + trailer(total, xref_offset)
}

/// The start of the cross-reference table for `total` objects, with the
/// entry of the free object 0.
pub open spec fn xref_head(total: nat) -> Seq<u8> {
    t("xref\n"@) + t("0 "@) + dec_digits(total) + t("\n"@) + t("0000000000 65535 f \n"@)
}

/// The trailer: the object count, the catalog, and the offset of the
/// cross-reference table.
pub open spec fn trailer(total: nat, xref_offset: nat) -> Seq<u8> {
    t("trailer\n"@) + t("<< /Size "@) + dec_digits(total) + t(" /Root 1 0 R >>\n"@) + t("startxref\n"@)
        + dec_digits(xref_offset) + t("\n"@) + t("%%EOF\n"@)
}

/// The cross-reference table and trailer of the file for `imgs` laid
/// out by `lays`, written from offset `base` on.
#[verifier::opaque]
pub open spec fn xref_section(imgs: Seq<CompressedImage>, lays: Seq<PageLayout>, base: nat) -> Seq<u8> {
    let objs = pdf_objects(imgs, lays);
    let offsets = Seq::new(objs.len(), |j: int| obj_offset(base, objs, j));
    xref_and_trailer(offsets, base + header_bytes().len() + concat(objs).len())
}

/// The file written for `imgs` laid out by `lays`, when writing starts at
/// offset `base` of the output.
pub open spec fn pdf_document(imgs: Seq<CompressedImage>, lays: Seq<PageLayout>, base: nat) -> Seq<u8> {
    header_bytes() + concat(pdf_objects(imgs, lays)) + xref_section(imgs, lays, base)
}


/// Appends the bytes of `s`.
fn push_str(w: &mut Vec<u8>, s: &str)
    ensures
        final(w)@ == old(w)@ + t(s@),
{
    let b = s.as_bytes();
    let ghost start = w@;
    let mut i: usize = 0;
    while i < b.len()
        invariant
            i <= b@.len(),
            b@ == t(s@),
            w@ == start + b@.subrange(0, i as int),
        decreases b.len() - i,
    {
        w.push(b[i]);
        i += 1;
        assert(w@ =~= start + b@.subrange(0, i as int));
    }
    assert(b@.subrange(0, b@.len() as int) =~= b@);
}

/// Appends the bytes of `b`.
fn push_slice(w: &mut Vec<u8>, b: &[u8])
    ensures
        final(w)@ == old(w)@ + b@,
{
    let ghost start = w@;
    let mut i: usize = 0;
    while i < b.len()
        invariant
            i <= b@.len(),
            w@ == start + b@.subrange(0, i as int),
        decreases b.len() - i,
    {
        w.push(b[i]);
        i += 1;
        assert(w@ =~= start + b@.subrange(0, i as int));
    }
    assert(b@.subrange(0, b@.len() as int) =~= b@);
}

/// The number of decimal digits of `n`.
fn decimal_len(n: u64) -> (r: usize)
    ensures
        r == dec_digits(n as nat).len(),
    decreases n,
{
    if n < 10 {
        1
    } else {
        let r = decimal_len(n / 10);
        proof {
            assert(dec_digits(n as nat) == dec_digits((n / 10) as nat).push((48 + n % 10) as u8));
        }
        assert(r < 30) by {
            lemma_pow10_20();
            lemma_dec_len_pow(n as nat, 20);
        }
        r + 1
    }
}

/// `10^k`.
pub open spec fn pow10(k: nat) -> nat
    decreases k,
{
    if k == 0 {
        1
    } else {
        10 * pow10((k - 1) as nat)
    }
}

proof fn lemma_pow10_20()
    ensures
        pow10(20) == 100_000_000_000_000_000_000,
{
    reveal_with_fuel(pow10, 21);
}

proof fn lemma_dec_len_pow(n: nat, k: nat)
    requires
        k >= 1,
        n < pow10(k),
    ensures
        dec_digits(n).len() <= k,
    decreases k,
{
    if n >= 10 {
        assert(n / 10 < pow10((k - 1) as nat));
        if k - 1 >= 1 {
            lemma_dec_len_pow(n / 10, (k - 1) as nat);
        } else {
            assert(pow10(0) == 1);
        }
    }
}

/// Appends `n` in decimal, left-padded with zeros to ten digits.
fn push_padded10(w: &mut Vec<u8>, n: u64)
    ensures
        final(w)@ == old(w)@ + dec_digits_padded(n as nat, 10),
{
    let len = decimal_len(n);
    let ghost start = w@;
    let mut k: usize = len;
    while k < 10
        invariant
            len <= k <= 10 || (len > 10 && k == len),
            w@ == start + Seq::new((k - len) as nat, |i: int| 48u8),
        decreases 10 - k,
    {
        w.push(48);
        k += 1;
        assert(w@ =~= start + Seq::new((k - len) as nat, |i: int| 48u8));
    }
    push_decimal(w, n);
    proof {
        if len < 10 {
            assert(w@ =~= old(w)@ + dec_digits_padded(n as nat, 10));
        } else {
            assert(Seq::new(0, |i: int| 48u8) =~= Seq::<u8>::empty());
            assert(w@ =~= old(w)@ + dec_digits_padded(n as nat, 10));
        }
    }
}

/// Appends the opening line of object `k`.
fn push_obj_open(w: &mut Vec<u8>, k: u32)
    ensures
        final(w)@ == old(w)@ + obj_open(k as nat),
{
    push_decimal(w, k as u64);
    push_str(w, " 0 obj\n");
    assert(final(w)@ =~= old(w)@ + obj_open(k as nat));
}

fn write_catalog(w: &mut Vec<u8>)
    ensures
        final(w)@ == old(w)@ + catalog_obj(),
{
    push_obj_open(w, 1);
    push_str(w, "<< /Type /Catalog /Pages 2 0 R >>\nendobj\n");
    assert(final(w)@ =~= old(w)@ + catalog_obj());
}

fn write_pages(w: &mut Vec<u8>, n: u32)
    requires
        3 * n + 3 <= u32::MAX,
    ensures
        final(w)@ == old(w)@ + pages_obj(n as nat),
{
    push_obj_open(w, 2);
    push_str(w, "<< /Type /Pages /Count ");
    push_decimal(w, n as u64);
    push_str(w, " /Kids [");
    let ghost mid = w@;
    let mut i: u32 = 0;
    while i < n
        invariant
            i <= n,
            3 * n + 3 <= u32::MAX,
            w@ == mid + kids(i as nat),
        decreases n - i,
    {
        let page_obj = 3 + 3 * i;
        push_decimal(w, page_obj as u64);
        push_str(w, " 0 R ");
        i += 1;
        assert(w@ =~= mid + kids(i as nat));
    }
    push_str(w, "] >>\nendobj\n");
    assert(final(w)@ =~= old(w)@ + pages_obj(n as nat));
}

#[verifier::rlimit(50)]
fn write_page_obj(w: &mut Vec<u8>, lay: &PageLayout, i: u32)
    requires
        3 * i + 5 <= u32::MAX,
    ensures
        final(w)@ == old(w)@ + page_obj(*lay, i as nat),
{
    push_obj_open(w, 3 + 3 * i);
    push_str(w, "<< /Type /Page /Parent 2 0 R /MediaBox [0 0 ");
    push_str(w, lay.page_w.as_str());
    push_str(w, " ");
    push_str(w, lay.page_h.as_str());
    push_str(w, "] /Resources << /XObject << /Im0 ");
    push_decimal(w, (4 + 3 * i) as u64);
    push_str(w, " 0 R >> >> /Contents ");
    push_decimal(w, (5 + 3 * i) as u64);
    push_str(w, " 0 R >>\nendobj\n");
    assert(final(w)@ =~= old(w)@ + page_obj(*lay, i as nat));
}

fn write_ccitt_parms(w: &mut Vec<u8>, img: &CompressedImage)
    ensures
        final(w)@ == old(w)@ + ccitt_parms(*img),
{
    if img.is_ccitt {
        push_str(w, " /DecodeParms << /K -1 /Columns ");
        push_decimal(w, img.width as u64);
        push_str(w, " /Rows ");
        push_decimal(w, img.height as u64);
        push_str(w, " >>");
        assert(final(w)@ =~= old(w)@ + ccitt_parms(*img));
    } else {
        assert(final(w)@ =~= old(w)@ + ccitt_parms(*img));
    }
}

#[verifier::rlimit(50)]
fn write_image_dict(w: &mut Vec<u8>, img: &CompressedImage)
    ensures
        final(w)@ == old(w)@ + image_dict(*img),
{
    push_str(w, "<< /Type /XObject /Subtype /Image /Width ");
    push_decimal(w, img.width as u64);
    push_str(w, " /Height ");
    push_decimal(w, img.height as u64);
    push_str(w, " /ColorSpace /");
    push_str(w, img.color_space.as_str());
    push_str(w, " /BitsPerComponent ");
    push_decimal(w, img.bits_per_component as u64);
    push_str(w, " /Filter /");
    push_str(w, img.filter.as_str());
    write_ccitt_parms(w, img);
    assert(final(w)@ =~= old(w)@ + image_dict(*img));
}

#[verifier::rlimit(50)]
fn write_image_obj(w: &mut Vec<u8>, img: &CompressedImage, i: u32)
    requires
        3 * i + 5 <= u32::MAX,
    ensures
        final(w)@ == old(w)@ + image_obj(*img, i as nat),
{
    push_obj_open(w, 4 + 3 * i);
    write_image_dict(w, img);
    push_str(w, " /Length ");
    push_decimal(w, img.data.len() as u64);
    push_str(w, " >>\nstream\n");
    push_slice(w, img.data.as_slice());
    push_str(w, "\nendstream\nendobj\n");
    assert(final(w)@ =~= old(w)@ + image_obj(*img, i as nat));
}

#[verifier::rlimit(50)]
fn write_content_obj(w: &mut Vec<u8>, lay: &PageLayout, i: u32)
    requires
        3 * i + 5 <= u32::MAX,
    ensures
        final(w)@ == old(w)@ + content_obj(*lay, i as nat),
{
    let mut content: Vec<u8> = Vec::new();
    push_str(&mut content, "q\n");
    push_str(&mut content, lay.sw.as_str());
    push_str(&mut content, " 0 0 ");
    push_str(&mut content, lay.sh.as_str());
    push_str(&mut content, " ");
    push_str(&mut content, lay.tx.as_str());
    push_str(&mut content, " ");
    push_str(&mut content, lay.ty.as_str());
    push_str(&mut content, " cm\n/Im0 Do\nQ\n");
    assert(content@ =~= content_text(*lay));
    push_obj_open(w, 5 + 3 * i);
    push_str(w, "<< /Length ");
    push_decimal(w, content.len() as u64);
    push_str(w, " >>\nstream\n");
    push_slice(w, content.as_slice());
    push_str(w, "\nendstream\nendobj\n");
    assert(final(w)@ =~= old(w)@ + content_obj(*lay, i as nat));
}

#[verifier::rlimit(50)]
fn write_xref_head(w: &mut Vec<u8>, total: u64)
    ensures
        final(w)@ == old(w)@ + xref_head(total as nat),
{
    push_str(w, "xref\n");
    push_str(w, "0 ");
    push_decimal(w, total);
    push_str(w, "\n");
    push_str(w, "0000000000 65535 f \n");
    assert(final(w)@ =~= old(w)@ + xref_head(total as nat));
}

#[verifier::rlimit(50)]
fn write_trailer(w: &mut Vec<u8>, total: u64, xref_offset: u64)
    ensures
        final(w)@ == old(w)@ + trailer(total as nat, xref_offset as nat),
{
    push_str(w, "trailer\n");
    push_str(w, "<< /Size ");
    push_decimal(w, total);
    push_str(w, " /Root 1 0 R >>\n");
    push_str(w, "startxref\n");
    push_decimal(w, xref_offset);
    push_str(w, "\n");
    push_str(w, "%%EOF\n");
    assert(final(w)@ =~= old(w)@ + trailer(total as nat, xref_offset as nat));
}

fn write_xref_entries(w: &mut Vec<u8>, offsets: &Vec<usize>)
    ensures
        final(w)@ == old(w)@ + xref_entries(offsets@.map_values(|o: usize| o as nat)),
{
    let ghost offs = offsets@.map_values(|o: usize| o as nat);
    let ghost mid = w@;
    let mut i: usize = 0;
    while i < offsets.len()
        invariant
            i <= offsets@.len(),
            offs == offsets@.map_values(|o: usize| o as nat),
            w@ == mid + xref_entries(offs.subrange(0, i as int)),
        decreases offsets.len() - i,
    {
        let ghost before = w@;
        push_padded10(w, offsets[i] as u64);
        push_str(w, " 00000 n \n");
        i += 1;
        proof {
            let sub = offs.subrange(0, i as int);
            assert(sub.drop_last() =~= offs.subrange(0, i - 1));
            assert(sub.last() == offsets@[i - 1] as nat);
            assert(w@ =~= mid + xref_entries(sub));
        }
    }
    assert(offs.subrange(0, offsets@.len() as int) =~= offs);
}

fn write_xref(w: &mut Vec<u8>, offsets: &Vec<usize>, xref_offset: usize)
    requires
        offsets@.len() + 1 <= u64::MAX,
    ensures
        final(w)@ == old(w)@ + xref_and_trailer(offsets@.map_values(|o: usize| o as nat), xref_offset as nat),
{
    let total = offsets.len() as u64 + 1;
    write_xref_head(w, total);
    write_xref_entries(w, offsets);
    write_trailer(w, total, xref_offset as u64);
    assert(final(w)@ =~= old(w)@ + xref_and_trailer(offsets@.map_values(|o: usize| o as nat), xref_offset as nat));
}

fn write_header(w: &mut Vec<u8>)
    ensures
        final(w)@ == old(w)@ + header_bytes(),
{
    w.push(0x25);
    w.push(0x50);
    w.push(0x44);
    w.push(0x46);
    w.push(0x2d);
    w.push(0x31);
    w.push(0x2e);
    w.push(0x34);
    w.push(0x0a);
    w.push(0x25);
    w.push(0xe2);
    w.push(0xe3);
    w.push(0xcf);
    w.push(0xd3);
    w.push(0x0a);
    assert(final(w)@ =~= old(w)@ + header_bytes());
}

proof fn lemma_concat_take(parts: Seq<Seq<u8>>, k: int)
    requires
        0 <= k < parts.len(),
    ensures
        concat(parts.take(k + 1)) == concat(parts.take(k)) + parts[k],
{
    assert(parts.take(k + 1).drop_last() =~= parts.take(k));
}


/// Writes the PDF file for `images`, one page each, laid out by the
/// matching entries of `layouts`, at the end of `w`.  The cross-reference
/// table gives the offsets (within `w`) of every object.
#[verifier::rlimit(50)]
pub fn write_pdf_bytes(images: &Vec<CompressedImage>, layouts: &Vec<PageLayout>, w: &mut Vec<u8>) -> (r: Result<
    (),
    String,
>)
    requires
        images@.len() == layouts@.len(),
        3 * images@.len() + 5 <= u32::MAX,
    ensures
        r is Ok,
        final(w)@ == old(w)@ + pdf_document(images@, layouts@, old(w)@.len()),
{
    let ghost base = w@.len();
    let ghost objs = pdf_objects(images@, layouts@);
    proof {
        lemma_objects_start(images@, layouts@);
    }
    write_header(w);
    let n = images.len() as u32;
    let mut offsets: Vec<usize> = Vec::new();
    offsets.push(w.len());
    write_catalog(w);
    proof {
        lemma_concat_take(objs, 0);
        assert(objs.take(0) =~= Seq::<Seq<u8>>::empty());
        assert(objs[0] == catalog_obj());
        assert(w@ =~= old(w)@ + header_bytes() + concat(objs.take(1)));
    }
    offsets.push(w.len());
    write_pages(w, n);
    proof {
        lemma_concat_take(objs, 1);
        assert(objs[1] == pages_obj(n as nat));
        assert(w@ =~= old(w)@ + header_bytes() + concat(objs.take(2)));
    }
    let mut i: u32 = 0;
    while i < n
        invariant
            i <= n,
            n == images@.len(),
            images@.len() == layouts@.len(),
            3 * images@.len() + 5 <= u32::MAX,
            objs == pdf_objects(images@, layouts@),
            objs.len() == 2 + 3 * n,
            base == old(w)@.len(),
            w@ == old(w)@ + header_bytes() + concat(objs.take(2 + 3 * i)),
            offsets@.len() == 2 + 3 * i,
            forall|j: int| 0 <= j < offsets@.len() ==> offsets@[j] as nat == #[trigger] obj_offset(base, objs, j),
        decreases n - i,
    {
        let ghost k = 2 + 3 * i;
        let ghost x = old(w)@ + header_bytes();
        let o1 = w.len();
        write_page_obj(w, &layouts[i as usize], i);
        let o2 = w.len();
        write_image_obj(w, &images[i as usize], i);
        let o3 = w.len();
        write_content_obj(w, &layouts[i as usize], i);
        offsets.push(o1);
        offsets.push(o2);
        offsets.push(o3);
        proof {
            lemma_objects_of_image(images@, layouts@, i as int);
            assert(objs[k] == page_obj(layouts@[i as int], i as nat));
            assert(objs[k + 1] == image_obj(images@[i as int], i as nat));
            assert(objs[k + 2] == content_obj(layouts@[i as int], i as nat));
            lemma_concat_take(objs, k);
            lemma_concat_take(objs, k + 1);
            lemma_concat_take(objs, k + 2);
            let c0 = concat(objs.take(k));
            assert(w@ =~= x + concat(objs.take(k + 3))) by {
                assert(concat(objs.take(k + 3)) =~= c0 + objs[k] + objs[k + 1] + objs[k + 2]);
            }
            assert(o1 as nat == obj_offset(base, objs, k));
            assert(o2 as nat == obj_offset(base, objs, k + 1));
            assert(o3 as nat == obj_offset(base, objs, k + 2));
        }
        i += 1;
    }
    let xref_offset = w.len();
    let ghost w1 = w@;
    proof {
        assert(objs.take(objs.len() as int) =~= objs);
    }
    write_xref(w, &offsets, xref_offset);
    proof {
        let offs = Seq::new(objs.len(), |j: int| obj_offset(base, objs, j));
        assert(offsets@.map_values(|o: usize| o as nat) =~= offs);
        assert(xref_offset as nat == base + header_bytes().len() + concat(objs).len());
        reveal(xref_section);
        assert(final(w)@ =~= old(w)@ + pdf_document(images@, layouts@, base));
    }
    Ok(())
}


proof fn lemma_concat_prefix(parts: Seq<Seq<u8>>, k: int, m: int)
    requires
        0 <= k <= m <= parts.len(),
    ensures
        concat(parts.take(m)).len() >= concat(parts.take(k)).len(),
        concat(parts.take(m)).subrange(0, concat(parts.take(k)).len() as int) == concat(parts.take(k)),
    decreases m - k,
{
    if k < m {
        lemma_concat_prefix(parts, k, m - 1);
        lemma_concat_take(parts, m - 1);
        let a = concat(parts.take(m - 1));
        let b = concat(parts.take(k));
        assert((a + parts[m - 1]).subrange(0, b.len() as int) =~= a.subrange(0, b.len() as int));
    } else {
        assert(concat(parts.take(m)).subrange(0, concat(parts.take(k)).len() as int) =~= concat(parts.take(k)));
    }
}

/// Object `j + 1` begins with its opening line.
proof fn lemma_object_opens(imgs: Seq<CompressedImage>, lays: Seq<PageLayout>, j: int)
    requires
        0 <= j < 2 + 3 * imgs.len(),
    ensures
        pdf_objects(imgs, lays)[j].len() >= obj_open((j + 1) as nat).len(),
        pdf_objects(imgs, lays)[j].subrange(0, obj_open((j + 1) as nat).len() as int) == obj_open((j + 1) as nat),
{
    let o = pdf_objects(imgs, lays)[j];
    let h = obj_open((j + 1) as nat);
    lemma_objects_start(imgs, lays);
    if j == 0 {
        assert(o.subrange(0, h.len() as int) =~= h);
    } else if j == 1 {
        assert(o.subrange(0, h.len() as int) =~= h);
    } else {
        let i = (j - 2) / 3;
        lemma_objects_of_image(imgs, lays, i);
        if (j - 2) % 3 == 0 {
            assert(3 + 3 * i == j + 1);
        } else if (j - 2) % 3 == 1 {
            assert(4 + 3 * i == j + 1);
        } else {
            assert(5 + 3 * i == j + 1);
        }
        assert(o.subrange(0, h.len() as int) =~= h);
    }
}

/// Every cross-reference entry is right: the offset the table gives for
/// object `j + 1` (relative to where the file starts) is where that
/// object's opening line `j+1 0 obj` stands in the file.
pub proof fn lemma_xref_offsets_point_at_objects(
    imgs: Seq<CompressedImage>,
    lays: Seq<PageLayout>,
    base: nat,
    j: int,
)
    requires
        0 <= j < 2 + 3 * imgs.len(),
    ensures
        ({
            let doc = pdf_document(imgs, lays, base);
            let start = obj_offset(base, pdf_objects(imgs, lays), j) - base;
            let line = obj_open((j + 1) as nat);
            start + line.len() <= doc.len() && doc.subrange(start, start + line.len()) == line
        }),
{
    let objs = pdf_objects(imgs, lays);
    let doc = pdf_document(imgs, lays, base);
    let line = obj_open((j + 1) as nat);
    let hl = header_bytes().len();
    let pre = concat(objs.take(j));
    lemma_objects_start(imgs, lays);
    lemma_concat_take(objs, j);
    lemma_concat_prefix(objs, j + 1, objs.len() as int);
    lemma_object_opens(imgs, lays, j);
    assert(objs.take(objs.len() as int) =~= objs);
    let whole = concat(objs);
    let upto = concat(objs.take(j + 1));
    assert(upto == pre + objs[j]);
    assert(whole.subrange(0, upto.len() as int) == upto);
    let start = hl + pre.len();
    assert(doc.subrange(start as int, (start + line.len()) as int) =~= line) by {
        assert forall|k: int| 0 <= k < line.len() implies doc[start + k] == line[k] by {
            assert(doc[start + k] == whole[pre.len() + k]);
            assert(whole[pre.len() + k] == upto[pre.len() + k]);
            assert(upto[pre.len() + k] == objs[j][k]);
            assert(objs[j][k] == objs[j].subrange(0, line.len() as int)[k]);
        }
    }
}

/// The `startxref` value is right: it is the offset (relative to where
/// the file starts) of the `xref` keyword that opens the
/// cross-reference table.
pub proof fn lemma_startxref_points_at_table(imgs: Seq<CompressedImage>, lays: Seq<PageLayout>, base: nat)
    ensures
        ({
            let doc = pdf_document(imgs, lays, base);
            let start = header_bytes().len() + concat(pdf_objects(imgs, lays)).len();
            start + t("xref\n"@).len() <= doc.len() && doc.subrange(start as int, (start + t("xref\n"@).len()) as int)
                == t("xref\n"@)
        }),
{
    let objs = pdf_objects(imgs, lays);
    let doc = pdf_document(imgs, lays, base);
    let a = header_bytes() + concat(objs);
    let xs = xref_section(imgs, lays, base);
    let kw = t("xref\n"@);
    assert(xs.len() >= kw.len() && xs.subrange(0, kw.len() as int) =~= kw) by {
        reveal(xref_section);
    }
    assert(doc.subrange(a.len() as int, (a.len() + kw.len()) as int) =~= kw) by {
        assert forall|k: int| 0 <= k < kw.len() implies doc[a.len() + k] == kw[k] by {
            assert(doc[a.len() + k] == xs[k]);
            assert(xs[k] == xs.subrange(0, kw.len() as int)[k]);
        }
    }
}

} // verus!
