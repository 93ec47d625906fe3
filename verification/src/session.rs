//! Decisions of a compression session around the pipeline: the mode of
//! each page, what the interface shows of a page, the uniform page size,
//! the output file name, and the size texts of reports.

use vstd::prelude::*;
use crate::samples::{lemma_pow2_mono, lemma_pow2_pos, pow2, pow2_u32};
use crate::text::{append_decimal, dec_chars};
use crate::types::{DecodedImage, ImageChoice, ImageInfo, Mode};

verus! {

/// `n / 1024` rounded to the nearest integer, ties to even.
pub open spec fn kib_rounded(n: nat) -> nat {
    let q = n / 1024;
    let r = n % 1024;
    if r < 512 {
        q
    } else if r > 512 {
        q + 1
    } else if q % 2 == 0 {
        q
    } else {
        q + 1
    }
}

/// The number of binary digits of `n` (none for 0).
pub open spec fn bit_len(n: nat) -> nat
    decreases n,
{
    if n == 0 {
        0
    } else {
        1 + bit_len(n / 2)
    }
}

/// `n` rounded to 53 significant binary digits, ties to even: the value
/// an integer takes when converted to `f64`.
pub open spec fn f64_value(n: nat) -> nat {
    if bit_len(n) <= 53 {
        n
    } else {
        let unit = pow2((bit_len(n) - 53) as nat);
        let q = n / unit;
        let r = n % unit;
        let m = if 2 * r < unit {
            q
        } else if 2 * r > unit {
            q + 1
        } else if q % 2 == 0 {
            q
        } else {
            q + 1
        };
        m * unit
    }
}

/// The whole kibibytes a report shows for `n` bytes: `n as f64 / 1024.0`
/// printed with no decimals, that is the `f64` value of `n` divided by
/// 1024 (exactly, a power of two) and rounded half to even.
pub open spec fn report_kib(n: nat) -> nat {
    kib_rounded(f64_value(n))
}

proof fn lemma_bit_len_bound(n: nat, k: nat)
    requires
        n < pow2(k),
    ensures
        bit_len(n) <= k,
    decreases k,
{
    if n > 0 {
        if k == 0 {
            assert(pow2(0) == 1);
        } else {
            assert(pow2(k) == 2 * pow2((k - 1) as nat));
            lemma_bit_len_bound(n / 2, (k - 1) as nat);
        }
    }
}

fn bit_length(n: u64) -> (r: u32)
    ensures
        r == bit_len(n as nat),
        r <= 64,
{
    proof {
        assert(pow2(64) == 0x1_0000_0000_0000_0000) by {
            reveal_with_fuel(pow2, 65);
        }
        lemma_bit_len_bound(n as nat, 64);
    }
    let mut x = n;
    let mut k: u32 = 0;
    while x > 0
        invariant
            k + bit_len(x as nat) == bit_len(n as nat),
            bit_len(n as nat) <= 64,
        decreases x,
    {
        x = x / 2;
        k = k + 1;
    }
    k
}

/// The `f64` value of `n`, which exceeds `n` by less than 2048.
fn f64_value_exec(n: u64) -> (r: u128)
    ensures
        r == f64_value(n as nat),
        r <= n + 2048,
{
    let bl = bit_length(n);
    if bl <= 53 {
        return n as u128;
    }
    let e = bl - 53;
    proof {
        lemma_pow2_mono(e as nat, 11);
        lemma_pow2_pos(e as nat);
        assert(pow2(11) == 2048) by {
            reveal_with_fuel(pow2, 12);
        }
    }
    let unit = pow2_u32(e) as u128;
    let nn = n as u128;
    let q = nn / unit;
    let r = nn % unit;
    let m = if 2 * r < unit {
        q
    } else if 2 * r > unit {
        q + 1
    } else if q % 2 == 0 {
        q
    } else {
        q + 1
    };
    assert(m * unit <= nn + unit) by (nonlinear_arith)
        requires
            unit > 0,
            q == nn / unit,
            m <= q + 1,
            nn >= 0,
    ;
    m * unit
}

/// `report_kib(n)`.
fn report_kib_exec(n: u64) -> (r: u64)
    ensures
        r == report_kib(n as nat),
{
    let v = f64_value_exec(n);
    let q = v / 1024;
    let rem = v % 1024;
    let k = if rem < 512 {
        q
    } else if rem > 512 {
        q + 1
    } else if q % 2 == 0 {
        q
    } else {
        q + 1
    };
    k as u64
}

/// A byte count for a report: bytes below 1024 (`"512B"`), else whole
/// kibibytes as `report_kib` rounds them (`"2K"`).
pub open spec fn spec_fmt(n: nat) -> Seq<char> {
    if n < 1024 {
        dec_chars(n) + "B"@
    } else {
        dec_chars(report_kib(n)) + "K"@
    }
}

/// A file size for a report: bytes below 1024 (`"512B"`), else whole
/// kibibytes as `report_kib` rounds them (`"2 KB"`).
pub open spec fn spec_fmt_b(n: nat) -> Seq<char> {
    if n < 1024 {
        dec_chars(n) + "B"@
    } else {
        dec_chars(report_kib(n)) + " KB"@
    }
}

pub fn fmt(n: usize) -> (r: String)
    ensures
        r@ == spec_fmt(n as nat),
{
    let mut s = String::new();
    if n < 1024 {
        append_decimal(&mut s, n as u64);
        s.append("B");
    } else {
        append_decimal(&mut s, report_kib_exec(n as u64));
        s.append("K");
    }
    assert(s@ =~= spec_fmt(n as nat));
    s
}

pub fn fmt_b(n: u64) -> (r: String)
    ensures
        r@ == spec_fmt_b(n as nat),
{
    let mut s = String::new();
    if n < 1024 {
        append_decimal(&mut s, n);
        s.append("B");
    } else {
        append_decimal(&mut s, report_kib_exec(n));
        s.append(" KB");
    }
    assert(s@ =~= spec_fmt_b(n as nat));
    s
}

/// The mode chosen for image `index` among the first `n` choices: the
/// last one that names it.
pub open spec fn last_choice(choices: Seq<ImageChoice>, index: usize, n: int) -> Option<Mode>
    decreases n,
{
    if n <= 0 {
        None
    } else if choices[n - 1].index == index {
        Some(choices[n - 1].mode)
    } else {
        last_choice(choices, index, n - 1)
    }
}

/// The mode suggested for an image: color for RGB images, else black
/// and white.
pub open spec fn suggested_mode(is_color: bool) -> Mode {
    if is_color {
        Mode::Color
    } else {
        Mode::Bw
    }
}

/// The mode an image is compressed with: the user's (last) choice for
/// it, else the suggested one.
pub open spec fn spec_choose_mode(choices: Seq<ImageChoice>, index: usize, is_color: bool) -> Mode {
    match last_choice(choices, index, choices.len() as int) {
        Some(m) => m,
        None => suggested_mode(is_color),
    }
}

pub fn choose_mode(choices: &Vec<ImageChoice>, index: usize, is_color: bool) -> (r: Mode)
    ensures
        r == spec_choose_mode(choices@, index, is_color),
{
    let mut k: usize = choices.len();
    while k > 0
        invariant
            k <= choices@.len(),
            last_choice(choices@, index, choices@.len() as int) == last_choice(choices@, index, k as int),
        decreases k,
    {
        if choices[k - 1].index == index {
            return choices[k - 1].mode;
        }
        k -= 1;
    }
    if is_color {
        Mode::Color
    } else {
        Mode::Bw
    }
}

/// The mode the interface suggests for an image is the mode it is
/// compressed with when the user chooses none for it.
pub proof fn lemma_default_mode_is_suggested(choices: Seq<ImageChoice>, index: usize, is_color: bool)
    requires
        forall|i: int| 0 <= i < choices.len() ==> (#[trigger] choices[i]).index != index,
    ensures
        spec_choose_mode(choices, index, is_color) == suggested_mode(is_color),
{
    lemma_no_choice(choices, index, choices.len() as int);
}

proof fn lemma_no_choice(choices: Seq<ImageChoice>, index: usize, n: int)
    requires
        n <= choices.len(),
        forall|i: int| 0 <= i < choices.len() ==> (#[trigger] choices[i]).index != index,
    ensures
        last_choice(choices, index, n) is None,
    decreases n,
{
    if n > 0 {
        assert(choices[n - 1].index != index);
        lemma_no_choice(choices, index, n - 1);
    }
}

/// What the interface shows of the image kept for a page.
pub fn image_info(index: usize, page: u32, img: &DecodedImage, thumbnail: String) -> (r: ImageInfo)
    ensures
        r.index == index,
        r.page == page,
        r.width == img.width,
        r.height == img.height,
        r.is_color == img.is_color,
        r.original_size == img.data@.len(),
        r.thumbnail == thumbnail,
        r.mode == suggested_mode(img.is_color),
{
    ImageInfo {
        index,
        page,
        width: img.width,
        height: img.height,
        is_color: img.is_color,
        original_size: img.data.len(),
        thumbnail,
        mode: if img.is_color {
            Mode::Color
        } else {
            Mode::Bw
        },
    }
}

/// How many of the first `n` entries of `s` equal `x`.
pub open spec fn count_of(s: Seq<(i64, i64)>, x: (i64, i64), n: int) -> nat
    decreases n,
{
    if n <= 0 {
        0
    } else {
        count_of(s, x, n - 1) + if s[n - 1] == x { 1nat } else { 0nat }
    }
}

/// The number of entries of `s` equal to `x`.
pub open spec fn occurrences(s: Seq<(i64, i64)>, x: (i64, i64)) -> nat {
    count_of(s, x, s.len() as int)
}

proof fn lemma_count_bound(s: Seq<(i64, i64)>, x: (i64, i64), n: int)
    requires
        0 <= n <= s.len(),
    ensures
        count_of(s, x, n) <= n,
    decreases n,
{
    if n > 0 {
        lemma_count_bound(s, x, n - 1);
    }
}

fn occurrences_exec(s: &Vec<(i64, i64)>, x: (i64, i64)) -> (r: usize)
    ensures
        r == occurrences(s@, x),
{
    let mut c: usize = 0;
    let mut i: usize = 0;
    while i < s.len()
        invariant
            i <= s@.len(),
            c == count_of(s@, x, i as int),
        decreases s.len() - i,
    {
        proof {
            lemma_count_bound(s@, x, i as int);
        }
        if s[i].0 == x.0 && s[i].1 == x.1 {
            c += 1;
        }
        i += 1;
    }
    c
}

/// The page size (in points) most pages have, for a uniform-size output:
/// the earliest, in page order, of the sizes that occur most often; US
/// Letter (612 by 792) when there are no pages.
pub fn most_common_page_size(sizes: &Vec<(i64, i64)>) -> (r: (i64, i64))
    ensures
        sizes@.len() == 0 ==> r == (612i64, 792i64),
        sizes@.len() > 0 ==> exists|i: int|
            0 <= i < sizes@.len() && sizes@[i] == r && (forall|j: int|
                0 <= j < i ==> occurrences(sizes@, #[trigger] sizes@[j]) < occurrences(sizes@, r)),
        forall|j: int| 0 <= j < sizes@.len() ==> occurrences(sizes@, #[trigger] sizes@[j]) <= occurrences(sizes@, r),
{
    if sizes.len() == 0 {
        return (612, 792);
    }
    let mut best_i: usize = 0;
    let mut best_c = occurrences_exec(sizes, sizes[0]);
    let mut i: usize = 1;
    while i < sizes.len()
        invariant
            1 <= i <= sizes@.len(),
            best_i < i,
            best_c == occurrences(sizes@, sizes@[best_i as int]),
            forall|j: int| 0 <= j < i ==> occurrences(sizes@, #[trigger] sizes@[j]) <= best_c,
            forall|j: int| 0 <= j < best_i ==> occurrences(sizes@, #[trigger] sizes@[j]) < best_c,
        decreases sizes.len() - i,
    {
        let c = occurrences_exec(sizes, sizes[i]);
        if c > best_c {
            best_i = i;
            best_c = c;
        }
        i += 1;
    }
    sizes[best_i]
}

/// The area `w * h` of an image dictionary's size.
pub open spec fn dict_area(d: (i64, i64)) -> int {
    d.0 * d.1
}

/// The index of the image with the largest area `width * height` (the
/// last of equal ones), or `None` for no images.
pub fn largest_image(dims: &Vec<(i64, i64)>) -> (r: Option<usize>)
    ensures
        dims@.len() == 0 <==> r is None,
        r matches Some(i) ==> i < dims@.len() && (forall|j: int|
            0 <= j < dims@.len() ==> dict_area(#[trigger] dims@[j]) <= dict_area(dims@[i as int])) && (forall|j: int|
            i < j < dims@.len() ==> dict_area(#[trigger] dims@[j]) < dict_area(dims@[i as int])),
{
    if dims.len() == 0 {
        return None;
    }
    let mut best: usize = 0;
    let mut best_a: i128 = area_i128(dims[0]);
    let mut i: usize = 1;
    while i < dims.len()
        invariant
            1 <= i <= dims@.len(),
            best < i,
            best_a == dict_area(dims@[best as int]),
            forall|j: int| 0 <= j < i ==> dict_area(#[trigger] dims@[j]) <= best_a,
            forall|j: int| best < j < i ==> dict_area(#[trigger] dims@[j]) < best_a,
        decreases dims.len() - i,
    {
        let a = area_i128(dims[i]);
        if a >= best_a {
            best = i;
            best_a = a;
        }
        i += 1;
    }
    Some(best)
}

fn area_i128(d: (i64, i64)) -> (r: i128)
    ensures
        r == dict_area(d),
{
    assert(-0x8000_0000_0000_0000 * 0x8000_0000_0000_0000 <= d.0 * d.1 <= 0x8000_0000_0000_0000
        * 0x8000_0000_0000_0000) by (nonlinear_arith)
        requires
            -0x8000_0000_0000_0000 <= d.0 < 0x8000_0000_0000_0000,
            -0x8000_0000_0000_0000 <= d.1 < 0x8000_0000_0000_0000,
    ;
    (d.0 as i128) * (d.1 as i128)
}


/// `std::path::Path::file_stem` of a path, when it is valid text.  Like
/// the two names below, it is fixed by the path rules (separator,
/// prefixes) of the target the crate is built for.
pub uninterp spec fn path_file_stem(p: Seq<char>) -> Option<Seq<char>>;

/// `std::path::Path::parent` of a path, as text.
pub uninterp spec fn path_parent(p: Seq<char>) -> Option<Seq<char>>;

/// `std::path::Path::join` of a directory and a file name, as text.
pub uninterp spec fn path_joined(dir: Seq<char>, name: Seq<char>) -> Seq<char>;

/// The file stem of `p` (`Path::file_stem`, then `OsStr::to_str`).
/// Trusted: the result is `path_file_stem(p)`.
#[verifier::external_body]
fn file_stem(p: &str) -> (r: Option<String>)
    ensures
        match path_file_stem(p@) {
            Some(s) => r matches Some(x) && x@ == s,
            None => r is None,
        },
{
    std::path::Path::new(p).file_stem().and_then(|s| s.to_str()).map(|s| s.to_string())
}

/// The parent directory of `p` (`Path::parent`), as text.  Trusted: the
/// result is `path_parent(p)`; a parent of a text path is text, so the
/// conversion loses nothing.
#[verifier::external_body]
fn parent_dir(p: &str) -> (r: Option<String>)
    ensures
        match path_parent(p@) {
            Some(s) => r matches Some(x) && x@ == s,
            None => r is None,
        },
{
    std::path::Path::new(p).parent().map(|q| q.to_string_lossy().into_owned())
}

/// `dir` joined with `name` (`Path::join`), as text.  Trusted: the result
/// is `path_joined(dir, name)`.
#[verifier::external_body]
fn join_path(dir: &str, name: &str) -> (r: String)
    ensures
        r@ == path_joined(dir@, name@),
{
    std::path::Path::new(dir).join(name).to_string_lossy().into_owned()
}

/// Whether something exists at `p` (`Path::exists`).  Nothing is stated
/// of the result: it depends on the file system.
#[verifier::external_body]
fn path_exists(p: &str) -> bool {
    std::path::Path::new(p).exists()
}

/// The `counter`-th name tried for the output of compressing `input`:
/// `<stem>_compressed.pdf`, then `<stem>_compressed_1.pdf`, ... next to
/// the input (`output` when the input has no stem, `.` when it has no
/// directory).
pub open spec fn save_candidate(input: Seq<char>, counter: nat) -> Seq<char> {
    let stem = match path_file_stem(input) {
        Some(s) => s,
        None => "output"@,
    };
    let parent = match path_parent(input) {
        Some(d) => d,
        None => "."@,
    };
    let suffix = if counter == 0 {
        "_compressed"@
    } else {
        "_compressed_"@ + dec_chars(counter)
    };
    path_joined(parent, stem + suffix + ".pdf"@)
}

/// The `counter`-th output name tried for `input_path`.
pub fn save_path_candidate(input_path: &str, counter: u32) -> (r: String)
    ensures
        r@ == save_candidate(input_path@, counter as nat),
{
    let stem = match file_stem(input_path) {
        Some(s) => s,
        None => String::from_str("output"),
    };
    let parent = match parent_dir(input_path) {
        Some(d) => d,
        None => String::from_str("."),
    };
    let mut name = stem;
    if counter == 0 {
        name.append("_compressed");
    } else {
        name.append("_compressed_");
        append_decimal(&mut name, counter as u64);
    }
    name.append(".pdf");
    proof {
        let st = match path_file_stem(input_path@) {
            Some(s) => s,
            None => "output"@,
        };
        if counter == 0 {
            assert(name@ =~= st + "_compressed"@ + ".pdf"@);
        } else {
            assert(name@ =~= st + ("_compressed_"@ + dec_chars(counter as nat)) + ".pdf"@);
        }
    }
    join_path(parent.as_str(), name.as_str())
}

/// One step of the search for a free output name, given whether the
/// `counter`-th candidate is `taken`: a free candidate is the answer;
/// a taken one sends the search on to the next counter, and past the
/// largest 32-bit signed counter (`None`) the search has failed.
pub fn save_path_step(input_path: &str, counter: u32, taken: bool) -> (r: Result<String, Option<u32>>)
    requires
        counter <= 0x7fff_ffff,
    ensures
        !taken ==> (r matches Ok(p) && p@ == save_candidate(input_path@, counter as nat)),
        taken && counter < 0x7fff_ffff ==> r == Err::<String, Option<u32>>(Some((counter + 1) as u32)),
        taken && counter == 0x7fff_ffff ==> r == Err::<String, Option<u32>>(None),
{
    if !taken {
        Ok(save_path_candidate(input_path, counter))
    } else if counter < 0x7fff_ffff {
        Err(Some(counter + 1))
    } else {
        Err(None)
    }
}

/// Picks the output path for compressing `input_path`: candidates
/// `save_candidate(input_path, 0)`, `save_candidate(input_path, 1)`, ...
/// are tried in order, each one's existence is asked of the file system,
/// and `save_path_step` decides on the answer: the first candidate found
/// free is returned; failure comes only after every candidate up to the
/// largest 32-bit signed counter was found taken.
pub fn pick_save_path(input_path: &str) -> (r: Result<String, String>)
    ensures
        r matches Ok(p) ==> exists|c: nat| c <= 0x7fff_ffff && p@ == save_candidate(input_path@, c),
        r matches Err(m) ==> m@ == "no free name for the output file"@,
{
    let mut counter: u32 = 0;
    loop
        invariant
            counter <= 0x7fff_ffff,
        decreases 0x7fff_ffff - counter,
    {
        let candidate = save_path_candidate(input_path, counter);
        let taken = path_exists(candidate.as_str());
        match save_path_step(input_path, counter, taken) {
            Ok(p) => {
                return Ok(p);
            },
            Err(Some(next)) => {
                counter = next;
            },
            Err(None) => {
                return Err(String::from_str("no free name for the output file"));
            },
        }
    }
}

} // verus!
