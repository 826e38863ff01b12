//! Bman artwork: dates of artwork catalog files, image file names, and the
//! choice of a cover among a show's local images.
use vstd::prelude::*;
use crate::catalog::store::permuted;
use crate::pattern::{captured, group_text};
use crate::sorting::{is_stable_num_order, stable_order_by_nums};
use crate::text::{
    ascii_lower, chars_of, contains_seq, dec_chars, fmt_dec, is_suffix, parse_u32, parse_u32_str, push,
    owned, push_chars, push_str, str_contains, str_ends_with, str_eq, to_ascii_lowercase,
};

verus! {

broadcast use vstd::string::group_string_axioms;

/// Artwork catalog folder ID in Bman's Google Drive.
pub const BMAN_ARTWORK_FOLDER_ID: &'static str = "161K2Fj9sXIY7vgaP0wuPpRUBcmSyFyfc";

/// Maximum images to download per show folder.
pub const MAX_IMAGES_PER_SHOW: usize = 20;

/// Maximum image file size (50 MB).
pub const MAX_IMAGE_SIZE: u64 = 52428800;

/// Dates of artwork catalog file names: `gd77-05-08-Barton-Hall.jpg`.
pub const ARTWORK_DATE_RE: &'static str = r"(?i)^(?:gd|jgb|jg)(\d{2})-(\d{2})-(\d{2})";

/// A single artwork file from the catalog folder.
#[derive(Debug, Clone)]
pub struct ArtworkEntry {
    pub file_id: String,
    pub name: String,
    pub size: u64,
}

/// "YYYY-MM-DD" from an artwork file name: two-digit years of 50 and up in
/// the 1900s, the others in the 2000s.
pub open spec fn spec_parse_artwork_date(name: Seq<char>) -> Option<Seq<char>> {
    match (group_text(ARTWORK_DATE_RE@, name, 1), group_text(ARTWORK_DATE_RE@, name, 2), group_text(ARTWORK_DATE_RE@, name, 3)) {
        (Some(y), Some(m), Some(d)) => match parse_u32(y) {
            Some(yy) => {
                let year: nat = if yy >= 50 { (1900 + yy) as nat } else { (2000 + yy) as nat };
                Some(fmt_dec(year) + seq!['-'] + m + seq!['-'] + d)
            },
            None => None,
        },
        _ => None,
    }
}

/// Parse the date from an artwork catalog file name.
pub fn parse_artwork_date(name: &str) -> (r: Option<String>)
    ensures
        r is Some <==> spec_parse_artwork_date(name@) is Some,
        r matches Some(t) ==> spec_parse_artwork_date(name@) == Some(t@),
{
    let y = match captured(ARTWORK_DATE_RE, name, 1) {
        Some(t) => t,
        None => return None,
    };
    let m = match captured(ARTWORK_DATE_RE, name, 2) {
        Some(t) => t,
        None => return None,
    };
    let d = match captured(ARTWORK_DATE_RE, name, 3) {
        Some(t) => t,
        None => return None,
    };
    let yy = match parse_u32_str(y.as_str()) {
        Some(v) => v,
        None => return None,
    };
    let year: u64 = if yy >= 50 { 1900 + yy as u64 } else { 2000 + yy as u64 };
    let mut out = String::new();
    push_chars(&mut out, dec_chars(year).as_slice());
    push(&mut out, '-');
    push_str(&mut out, m.as_str());
    push(&mut out, '-');
    push_str(&mut out, d.as_str());
    Some(out)
}

/// A name ending (ignoring ASCII case) in .jpg, .jpeg, .png or .webp.
pub open spec fn spec_is_image_file(name: Seq<char>) -> bool {
    let lower = ascii_lower(name);
    is_suffix(".jpg"@, lower) || is_suffix(".jpeg"@, lower) || is_suffix(".png"@, lower) || is_suffix(".webp"@, lower)
}

/// Whether a file name is that of an image.
pub fn is_image_file(name: &str) -> (r: bool)
    ensures
        r == spec_is_image_file(name@),
{
    let lower = to_ascii_lowercase(name);
    let l = lower.as_str();
    str_ends_with(l, ".jpg") || str_ends_with(l, ".jpeg") || str_ends_with(l, ".png") || str_ends_with(l, ".webp")
}

/// Index of the first name satisfying `p`.
pub open spec fn first_where(names: Seq<Seq<char>>, p: spec_fn(Seq<char>) -> bool) -> Option<int> {
    if exists|i: int| 0 <= i < names.len() && p(#[trigger] names[i]) {
        Some(choose|i: int| 0 <= i < names.len() && p(#[trigger] names[i]) && forall|j: int| 0 <= j < i ==> !p(#[trigger] names[j]))
    } else {
        None
    }
}

/// `i` holds the first of the largest sizes.
pub open spec fn is_first_largest(sizes: Seq<u64>, i: int) -> bool {
    &&& 0 <= i < sizes.len()
    &&& forall|j: int| 0 <= j < sizes.len() ==> #[trigger] sizes[j] <= sizes[i]
    &&& forall|j: int| 0 <= j < i ==> #[trigger] sizes[j] < sizes[i]
}

/// Index of the first largest size.
pub open spec fn first_largest(sizes: Seq<u64>) -> Option<int> {
    if sizes.len() == 0 {
        None
    } else {
        Some(choose|i: int| #[trigger] is_first_largest(sizes, i))
    }
}

/// The local image to use as cover: the first whose name holds "front"
/// (ignoring ASCII case), else the first with "cover", else (for a
/// non-empty show date) the first whose name holds the date, else the
/// first of the largest; none when there are no images.
pub open spec fn spec_pick_local_cover(names: Seq<Seq<char>>, sizes: Seq<u64>, show_date: Seq<char>) -> Option<int> {
    let front = first_where(names, |n: Seq<char>| contains_seq(ascii_lower(n), "front"@));
    let cover = first_where(names, |n: Seq<char>| contains_seq(ascii_lower(n), "cover"@));
    let dated = first_where(names, |n: Seq<char>| contains_seq(n, show_date));
    if names.len() == 0 {
        None
    } else if front is Some {
        front
    } else if cover is Some {
        cover
    } else if show_date.len() > 0 && dated is Some {
        dated
    } else {
        first_largest(sizes)
    }
}

pub open spec fn name_views(v: Seq<String>) -> Seq<Seq<char>> {
    v.map_values(|s: String| s@)
}

fn first_containing(names: &Vec<String>, needle: &str, lower: bool) -> (r: Option<usize>)
    ensures
        lower ==> r == (match first_where(name_views(names@), |n: Seq<char>| contains_seq(ascii_lower(n), needle@)) {
            Some(i) => Some(i as usize),
            None => None::<usize>,
        }),
        !lower ==> r == (match first_where(name_views(names@), |n: Seq<char>| contains_seq(n, needle@)) {
            Some(i) => Some(i as usize),
            None => None::<usize>,
        }),
{
    let ghost nv = name_views(names@);
    let ghost p = if lower { |n: Seq<char>| contains_seq(ascii_lower(n), needle@) } else { |n: Seq<char>| contains_seq(n, needle@) };
    let mut i: usize = 0;
    while i < names.len()
        invariant
            nv == name_views(names@),
            i <= names@.len(),
            p == (if lower { |n: Seq<char>| contains_seq(ascii_lower(n), needle@) } else { |n: Seq<char>| contains_seq(n, needle@) }),
            forall|j: int| 0 <= j < i ==> !p(#[trigger] nv[j]),
        decreases names@.len() - i,
    {
        let hit = if lower {
            let l = to_ascii_lowercase(names[i].as_str());
            str_contains(l.as_str(), needle)
        } else {
            str_contains(names[i].as_str(), needle)
        };
        if hit {
            proof {
                assert(p(nv[i as int]));
                let c = choose|k: int| 0 <= k < nv.len() && p(#[trigger] nv[k]) && forall|j: int| 0 <= j < k ==> !p(#[trigger] nv[j]);
                if c < i {
                    assert(!p(nv[c]));
                } else if c > i {
                    assert(!p(nv[i as int]));
                }
            }
            return Some(i);
        }
        i = i + 1;
    }
    None
}

/// Pick the cover among a show's local images (names and sizes in the
/// same order).
pub fn pick_local_cover(names: &Vec<String>, sizes: &Vec<u64>, show_date: &str) -> (r: Option<usize>)
    requires
        names@.len() == sizes@.len(),
    ensures
        r == (match spec_pick_local_cover(name_views(names@), sizes@, show_date@) {
            Some(i) => Some(i as usize),
            None => None::<usize>,
        }),
{
    if names.len() == 0 {
        return None;
    }
    match first_containing(names, "front", true) {
        Some(i) => return Some(i),
        None => {},
    }
    match first_containing(names, "cover", true) {
        Some(i) => return Some(i),
        None => {},
    }
    if !show_date.is_empty() {
        match first_containing(names, show_date, false) {
            Some(i) => return Some(i),
            None => {},
        }
    }
    let mut best: usize = 0;
    let mut i: usize = 1;
    while i < sizes.len()
        invariant
            sizes@.len() > 0,
            1 <= i <= sizes@.len(),
            best < i,
            forall|j: int| 0 <= j < i ==> sizes@[j] <= sizes@[best as int],
            forall|j: int| 0 <= j < best ==> sizes@[j] < sizes@[best as int],
        decreases sizes@.len() - i,
    {
        if sizes[i] > sizes[best] {
            best = i;
        }
        i = i + 1;
    }
    proof {
        assert(is_first_largest(sizes@, best as int));
        let c = choose|k: int| #[trigger] is_first_largest(sizes@, k);
        assert(sizes@[c] <= sizes@[best as int] && sizes@[best as int] <= sizes@[c]);
        if c < best {
            assert(sizes@[c] < sizes@[best as int]);
        } else if c > best {
            assert(sizes@[best as int] < sizes@[c]);
        }
    }
    Some(best)
}

/// "City, ST" line of a generated cover; the city alone without a state.
pub open spec fn spec_cover_location(city: Seq<char>, state: Seq<char>) -> Seq<char> {
    if state.len() == 0 { city } else { city + seq![',', ' '] + state }
}

/// The location line of a generated cover.
pub fn cover_location(city: &str, state: &str) -> (r: String)
    ensures
        r@ == spec_cover_location(city@, state@),
{
    let mut r = crate::text::owned(city);
    if !state.is_empty() {
        push(&mut r, ',');
        push(&mut r, ' ');
        push_str(&mut r, state);
    }
    r
}

/// An image of a listing as plain values: (file id, name, size in bytes).
pub open spec fn img_view(t: (String, String, u64)) -> (Seq<char>, Seq<char>, u64) {
    (t.0@, t.1@, t.2)
}

pub open spec fn img_views(v: Seq<(String, String, u64)>) -> Seq<(Seq<char>, Seq<char>, u64)> {
    Seq::new(v.len(), |i: int| img_view(v[i]))
}

/// A folder that holds a show's covers: `covers`, `cover`, `artwork` or
/// `art`, ignoring ASCII case.
pub open spec fn is_cover_folder_name(name: Seq<char>) -> bool {
    let l = ascii_lower(name);
    l == "covers"@ || l == "cover"@ || l == "artwork"@ || l == "art"@
}

/// The images of a folder listing of (id, name, size, is folder), in order.
pub open spec fn listing_images(items: Seq<(String, String, u64, bool)>) -> Seq<(Seq<char>, Seq<char>, u64)>
    decreases items.len(),
{
    if items.len() == 0 {
        Seq::empty()
    } else {
        let r = listing_images(items.drop_last());
        let it = items.last();
        if spec_is_image_file(it.1@) { r.push((it.0@, it.1@, it.2)) } else { r }
    }
}

/// The ids of the cover subfolders of a listing, in order.
pub open spec fn cover_subfolders(items: Seq<(String, String, u64, bool)>) -> Seq<Seq<char>>
    decreases items.len(),
{
    if items.len() == 0 {
        Seq::empty()
    } else {
        let r = cover_subfolders(items.drop_last());
        let it = items.last();
        if it.3 && is_cover_folder_name(it.1@) { r.push(it.0@) } else { r }
    }
}

pub open spec fn string_views(v: Seq<String>) -> Seq<Seq<char>> {
    Seq::new(v.len(), |i: int| v[i]@)
}

/// Whether a folder name is that of a cover subfolder.
pub fn is_cover_folder(name: &str) -> (r: bool)
    ensures
        r == is_cover_folder_name(name@),
{
    let l = to_ascii_lowercase(name);
    let l = l.as_str();
    str_eq(l, "covers") || str_eq(l, "cover") || str_eq(l, "artwork") || str_eq(l, "art")
}

/// Read a show folder's listing of (id, name, size, is folder): its images
/// (id, name, size) and the ids of its cover subfolders, whose images are
/// listed next.
pub fn artwork_listing(items: &Vec<(String, String, u64, bool)>) -> (r: (Vec<(String, String, u64)>, Vec<String>))
    ensures
        img_views(r.0@) == listing_images(items@),
        string_views(r.1@) == cover_subfolders(items@),
{
    let mut images: Vec<(String, String, u64)> = Vec::new();
    let mut folders: Vec<String> = Vec::new();
    let mut i: usize = 0;
    while i < items.len()
        invariant
            i <= items@.len(),
            img_views(images@) == listing_images(items@.take(i as int)),
            string_views(folders@) == cover_subfolders(items@.take(i as int)),
        decreases items@.len() - i,
    {
        proof {
            assert(items@.take(i + 1).drop_last() =~= items@.take(i as int));
            assert(items@.take(i + 1).last() == items@[i as int]);
        }
        let ghost iv = img_views(images@);
        let ghost fv = string_views(folders@);
        if is_image_file(items[i].1.as_str()) {
            images.push((owned(items[i].0.as_str()), owned(items[i].1.as_str()), items[i].2));
            proof {
                assert(img_views(images@) =~= iv.push((items@[i as int].0@, items@[i as int].1@, items@[i as int].2)));
            }
        }
        if items[i].3 && is_cover_folder(items[i].1.as_str()) {
            folders.push(owned(items[i].0.as_str()));
            proof {
                assert(string_views(folders@) =~= fv.push(items@[i as int].0@));
            }
        }
        i = i + 1;
    }
    proof {
        assert(items@.take(items@.len() as int) =~= items@);
    }
    (images, folders)
}

/// Rank of an image name: `front` 3, `cover` 2, else 1 (ignoring ASCII case).
pub open spec fn image_priority(name: Seq<char>) -> i64 {
    let l = ascii_lower(name);
    if contains_seq(l, "front"@) { 3 } else if contains_seq(l, "cover"@) { 2 } else { 1 }
}

/// Sort keys of the images, ascending: higher rank first, then larger
/// first (sizes beyond `i64::MAX` count as `i64::MAX`; such images are
/// oversized either way).
pub open spec fn artwork_keys(v: Seq<(Seq<char>, Seq<char>, u64)>) -> Seq<(i64, i64)> {
    Seq::new(v.len(), |i: int| (
        (0 - image_priority(v[i].1)) as i64,
        (0 - (if v[i].2 > 9223372036854775807u64 { 9223372036854775807u64 } else { v[i].2 })) as i64,
    ))
}

/// The images to download: ordered front > cover > other, then larger
/// first (stably), the first `MAX_IMAGES_PER_SHOW` of them, without the
/// oversized ones.
pub open spec fn spec_ranked_artwork(v: Seq<(Seq<char>, Seq<char>, u64)>, p: Seq<usize>) -> Seq<(Seq<char>, Seq<char>, u64)> {
    let n = if v.len() < MAX_IMAGES_PER_SHOW { v.len() as int } else { MAX_IMAGES_PER_SHOW as int };
    permuted(v, p).take(n).filter(|t: (Seq<char>, Seq<char>, u64)| t.2 <= MAX_IMAGE_SIZE)
}

fn priority_of(name: &str) -> (r: i64)
    ensures
        r == image_priority(name@),
{
    let l = to_ascii_lowercase(name);
    if str_contains(l.as_str(), "front") {
        3
    } else if str_contains(l.as_str(), "cover") {
        2
    } else {
        1
    }
}

/// Choose the images of a show folder (and its cover subfolders) to
/// download.
pub fn rank_artwork(images: &Vec<(String, String, u64)>) -> (r: Vec<(String, String, u64)>)
    ensures
        exists|p: Seq<usize>| is_stable_num_order(artwork_keys(img_views(images@)), p)
            && img_views(r@) == spec_ranked_artwork(img_views(images@), p),
{
    let ghost v = img_views(images@);
    let mut keys: Vec<(i64, i64)> = Vec::new();
    let mut i: usize = 0;
    while i < images.len()
        invariant
            i <= images@.len(),
            v == img_views(images@),
            keys@ == artwork_keys(v).take(i as int),
        decreases images@.len() - i,
    {
        let pr = priority_of(images[i].1.as_str());
        let sz = if images[i].2 > 9223372036854775807u64 { 9223372036854775807u64 } else { images[i].2 };
        let sz_key: i64 = 0 - (sz as i64);
        keys.push((0 - pr, sz_key));
        proof {
            assert(keys@ =~= artwork_keys(v).take(i + 1));
        }
        i = i + 1;
    }
    proof {
        assert(keys@ =~= artwork_keys(v));
    }
    let p = stable_order_by_nums(&keys);
    let n = if images.len() < MAX_IMAGES_PER_SHOW { images.len() } else { MAX_IMAGES_PER_SHOW };
    let ghost f = |t: (Seq<char>, Seq<char>, u64)| t.2 <= MAX_IMAGE_SIZE;
    let ghost pv = permuted(v, p@);
    let mut out: Vec<(String, String, u64)> = Vec::new();
    let mut k: usize = 0;
    while k < n
        invariant
            k <= n,
            n <= images@.len(),
            n == (if images@.len() < MAX_IMAGES_PER_SHOW { images@.len() } else { MAX_IMAGES_PER_SHOW as nat }),
            v == img_views(images@),
            is_stable_num_order(keys@, p@),
            keys@.len() == images@.len(),
            pv == permuted(v, p@),
            f == (|t: (Seq<char>, Seq<char>, u64)| t.2 <= MAX_IMAGE_SIZE),
            img_views(out@) == pv.take(k as int).filter(f),
        decreases n - k,
    {
        let idx = p[k];
        proof {
            assert(idx < images@.len());
            assert(pv[k as int] == v[idx as int]);
            assert(pv.take(k + 1) =~= pv.take(k as int).push(pv[k as int]));
            pv.take(k as int).lemma_filter_push(pv[k as int], f);
        }
        if images[idx].2 <= MAX_IMAGE_SIZE {
            let ghost ov = img_views(out@);
            out.push((owned(images[idx].0.as_str()), owned(images[idx].1.as_str()), images[idx].2));
            proof {
                assert(img_views(out@) =~= ov.push(v[idx as int]));
            }
        }
        k = k + 1;
    }
    proof {
        assert(img_views(out@) == spec_ranked_artwork(v, p@));
    }
    out
}

/// The cover subfolders are exactly the folders named covers, cover,
/// artwork or art in any ASCII case: each such folder of a listing is among
/// the cover subfolders, and only folders are.
pub proof fn law_cover_subfolder_names(items: Seq<(String, String, u64, bool)>, i: int)
    requires
        0 <= i < items.len(),
    ensures
        is_cover_folder_name(items[i].1@) <==> (ascii_lower(items[i].1@) == "covers"@ || ascii_lower(items[i].1@) == "cover"@
            || ascii_lower(items[i].1@) == "artwork"@ || ascii_lower(items[i].1@) == "art"@),
        items[i].3 && (ascii_lower(items[i].1@) == "covers"@ || ascii_lower(items[i].1@) == "cover"@
            || ascii_lower(items[i].1@) == "artwork"@ || ascii_lower(items[i].1@) == "art"@)
            ==> cover_subfolders(items).contains(items[i].0@),
    decreases items.len(),
{
    if i < items.len() - 1 {
        law_cover_subfolder_names(items.drop_last(), i);
        assert(items.drop_last()[i] == items[i]);
        if items[i].3 && is_cover_folder_name(items[i].1@) {
            let r = cover_subfolders(items.drop_last());
            let j = choose|j: int| 0 <= j < r.len() && r[j] == items[i].0@;
            let last = items.last();
            if last.3 && is_cover_folder_name(last.1@) {
                assert(cover_subfolders(items)[j] == items[i].0@);
            }
        }
    } else {
        if items[i].3 && is_cover_folder_name(items[i].1@) {
            let r = cover_subfolders(items.drop_last());
            assert(cover_subfolders(items)[r.len() as int] == items[i].0@);
        }
    }
}

} // verus!
