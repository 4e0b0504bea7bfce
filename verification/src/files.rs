//! Which entries of a folder are images, and in which order they are read.

use vstd::prelude::*;
use crate::natural::{compare_naturally, in_natural_order, natural_order, naturally_sorted, Order};
use crate::text::{chars_of, push_char, texts};

verus! {

/// The position of the last dot of a name, or -1 if it has none.
pub open spec fn last_dot(name: Seq<char>) -> int
    decreases name.len(),
{
    if name.len() == 0 {
        -1
    } else if name.last() == '.' {
        name.len() - 1
    } else {
        last_dot(name.drop_last())
    }
}

/// The extension of a file name: what follows its last dot. A name without
/// a dot has none, and neither has one whose only dot is its first
/// character.
pub open spec fn extension_of(name: Seq<char>) -> Option<Seq<char>> {
    if last_dot(name) <= 0 {
        None
    } else {
        Some(name.skip(last_dot(name) + 1))
    }
}

/// A capital letter of the Latin alphabet as its small letter; every other
/// character as it is.
pub open spec fn lower(c: char) -> char {
    match c {
        'A' => 'a',
        'B' => 'b',
        'C' => 'c',
        'D' => 'd',
        'E' => 'e',
        'F' => 'f',
        'G' => 'g',
        'H' => 'h',
        'I' => 'i',
        'J' => 'j',
        'K' => 'k',
        'L' => 'l',
        'M' => 'm',
        'N' => 'n',
        'O' => 'o',
        'P' => 'p',
        'Q' => 'q',
        'R' => 'r',
        'S' => 's',
        'T' => 't',
        'U' => 'u',
        'V' => 'v',
        'W' => 'w',
        'X' => 'x',
        'Y' => 'y',
        'Z' => 'z',
        _ => c,
    }
}

/// A text in small letters.
pub open spec fn lower_text(text: Seq<char>) -> Seq<char> {
    text.map_values(|c: char| lower(c))
}

/// What a file holds, as far as its name tells.
#[derive(Clone, Copy, Debug, PartialEq, Eq, Structural)]
pub enum ImageKind {
    /// A picture in one of the common formats.
    Raster,
    /// A document of layers, which have to be flattened.
    Layered,
}

/// The extension is that of a document of layers, in small or capital
/// letters.
pub open spec fn is_layered_extension(ext: Seq<char>) -> bool {
    lower_text(ext) == "psd"@
}

/// The extension is that of a picture in a common format, in small or
/// capital letters.
pub open spec fn is_raster_extension(ext: Seq<char>) -> bool {
    let e = lower_text(ext);
    e == "png"@ || e == "jpg"@ || e == "jpeg"@ || e == "webp"@ || e == "bmp"@ || e == "tiff"@ || e
        == "avif"@
}

/// What the file of this name holds, if it is an image.
pub open spec fn image_kind_spec(name: Seq<char>) -> Option<ImageKind> {
    match extension_of(name) {
        None => None,
        Some(ext) => if is_layered_extension(ext) {
            Some(ImageKind::Layered)
        } else if is_raster_extension(ext) {
            Some(ImageKind::Raster)
        } else {
            None
        },
    }
}

/// The name is that of an image.
pub open spec fn is_image_name(name: Seq<char>) -> bool {
    image_kind_spec(name) is Some
}

/// The small letter of a character.
fn lower_char(c: char) -> (l: char)
    ensures
        l == lower(c),
{
    match c {
        'A' => 'a',
        'B' => 'b',
        'C' => 'c',
        'D' => 'd',
        'E' => 'e',
        'F' => 'f',
        'G' => 'g',
        'H' => 'h',
        'I' => 'i',
        'J' => 'j',
        'K' => 'k',
        'L' => 'l',
        'M' => 'm',
        'N' => 'n',
        'O' => 'o',
        'P' => 'p',
        'Q' => 'q',
        'R' => 'r',
        'S' => 's',
        'T' => 't',
        'U' => 'u',
        'V' => 'v',
        'W' => 'w',
        'X' => 'x',
        'Y' => 'y',
        'Z' => 'z',
        _ => c,
    }
}

/// The extension of a name in small letters, if the name has one.
fn lowered_extension(name: &Vec<char>) -> (ext: Option<String>)
    ensures
        ext is Some <==> extension_of(name@) is Some,
        ext is Some ==> ext->0@ == lower_text(extension_of(name@)->0),
{
    let mut i: usize = name.len();
    assert(name@.take(i as int) =~= name@);
    while i > 0 && name[i - 1] != '.'
        invariant
            i <= name@.len(),
            last_dot(name@) == last_dot(name@.take(i as int)),
        decreases i,
    {
        assert(name@.take(i as int).drop_last() =~= name@.take(i - 1));
        i = i - 1;
    }
    if i <= 1 {
        return None;
    }
    let start = i;
    let ghost ext = name@.skip(start as int);
    let mut lowered = String::new();
    let mut k: usize = start;
    while k < name.len()
        invariant
            start <= k <= name@.len(),
            ext == name@.skip(start as int),
            lowered@ == lower_text(ext).take(k - start),
        decreases name@.len() - k,
    {
        push_char(&mut lowered, lower_char(name[k]));
        assert(lower_text(ext).take(k + 1 - start) =~= lower_text(ext).take(k - start).push(
            lower(name@[k as int]),
        ));
        k = k + 1;
    }
    assert(lower_text(ext).take(k - start) =~= lower_text(ext));
    Some(lowered)
}

/// Tells whether a text is a given word.
fn is_word(text: &String, word: &str) -> (same: bool)
    ensures
        same == (text@ == word@),
{
    *text == word.to_owned()
}

/// Tells from its name what a file holds: a picture in a common format
/// (`png`, `jpg`, `jpeg`, `webp`, `bmp`, `tiff`, `avif`), a document of
/// layers (`psd`), or nothing that can be read as an image. Capital letters
/// in the extension count as small ones.
pub fn image_kind(name: &str) -> (kind: Option<ImageKind>)
    ensures
        kind == image_kind_spec(name@),
{
    let chars = chars_of(name);
    match lowered_extension(&chars) {
        None => None,
        Some(ext) => {
            if is_word(&ext, "psd") {
                Some(ImageKind::Layered)
            } else if is_word(&ext, "png") || is_word(&ext, "jpg") || is_word(&ext, "jpeg")
                || is_word(&ext, "webp") || is_word(&ext, "bmp") || is_word(&ext, "tiff")
                || is_word(&ext, "avif") {
                Some(ImageKind::Raster)
            } else {
                None
            }
        },
    }
}

/// The test that keeps the names of images.
pub open spec fn images_only() -> spec_fn(Seq<char>) -> bool {
    |name: Seq<char>| is_image_name(name)
}

/// Putting an element into a sequence adds it to what the sequence holds.
proof fn lemma_insert_to_multiset(s: Seq<Seq<char>>, at: int, x: Seq<char>)
    requires
        0 <= at <= s.len(),
    ensures
        s.insert(at, x).to_multiset() == s.to_multiset().insert(x),
{
    broadcast use vstd::seq_lib::group_to_multiset_ensures;

    let longer = s.insert(at, x);
    assert(longer.remove(at) =~= s);
    assert(longer[at] == x);
    assert(longer.to_multiset() =~= s.to_multiset().insert(x));
}

/// Puts names into the order in which a person reads them. The result
/// holds the same names as often as the input does, and each of them may
/// stand directly before the next.
pub fn sort_naturally(names: &Vec<String>) -> (sorted: Vec<String>)
    ensures
        texts(sorted@).to_multiset() == texts(names@).to_multiset(),
        naturally_sorted(texts(sorted@)),
{
    let mut sorted: Vec<String> = Vec::new();
    let mut i: usize = 0;
    assert(texts(names@).take(0) =~= Seq::<Seq<char>>::empty());
    assert(texts(sorted@) =~= Seq::<Seq<char>>::empty());
    while i < names.len()
        invariant
            i <= names@.len(),
            texts(sorted@).to_multiset() == texts(names@).take(i as int).to_multiset(),
            naturally_sorted(texts(sorted@)),
        decreases names@.len() - i,
    {
        let name = names[i].clone();
        let mut at: usize = sorted.len();
        while at > 0 && compare_naturally(name.as_str(), sorted[at - 1].as_str()) == Order::Less
            invariant
                at <= sorted@.len(),
                forall|k: int|
                    at <= k < sorted@.len() ==> natural_order(name@, #[trigger] sorted@[k]@)
                        == Order::Less,
            decreases at,
        {
            at = at - 1;
        }
        let ghost before = texts(sorted@);
        let ghost prior = sorted@;
        sorted.insert(at, name);
        proof {
            let now = texts(sorted@);
            assert(now =~= before.insert(at as int, name@));
            lemma_insert_to_multiset(before, at as int, name@);
            assert(texts(names@).take(i + 1) =~= texts(names@).take(i as int).push(name@));
            broadcast use vstd::seq_lib::group_to_multiset_ensures;

            assert forall|k: int| 0 <= k && k + 1 < now.len() implies in_natural_order(
                #[trigger] now[k],
                now[k + 1],
            ) by {
                if k + 1 < at {
                    assert(now[k] == before[k] && now[k + 1] == before[k + 1]);
                } else if k + 1 == at {
                    assert(now[k] == before[k]);
                    assert(before[k] == prior[k]@);
                } else if k == at {
                    assert(now[k + 1] == before[k]);
                } else {
                    assert(now[k] == before[k - 1] && now[k + 1] == before[k]);
                }
            }
        }
        i = i + 1;
    }
    assert(texts(names@).take(i as int) =~= texts(names@));
    sorted
}

/// The image files among the entries of a folder, in the order in which
/// they are read: the names with the extension of an image, each as often
/// as it was given, sorted as `sort_naturally` sorts.
pub fn image_files(entries: &Vec<String>) -> (files: Vec<String>)
    ensures
        texts(files@).to_multiset() == texts(entries@).filter(images_only()).to_multiset(),
        naturally_sorted(texts(files@)),
{
    let mut kept: Vec<String> = Vec::new();
    let mut i: usize = 0;
    assert(texts(entries@).take(0) =~= Seq::<Seq<char>>::empty());
    assert(texts(kept@) =~= Seq::<Seq<char>>::empty());
    proof {
        reveal(Seq::filter);
    }
    while i < entries.len()
        invariant
            i <= entries@.len(),
            texts(kept@) == texts(entries@).take(i as int).filter(images_only()),
        decreases entries@.len() - i,
    {
        let ghost before = texts(kept@);
        proof {
            reveal(Seq::filter);
            assert(texts(entries@).take(i + 1).drop_last() =~= texts(entries@).take(i as int));
            assert(texts(entries@).take(i + 1).last() == entries@[i as int]@);
        }
        if image_kind(entries[i].as_str()).is_some() {
            kept.push(entries[i].clone());
            assert(texts(kept@) =~= before.push(entries@[i as int]@));
        }
        i = i + 1;
    }
    assert(texts(entries@).take(i as int) =~= texts(entries@));
    sort_naturally(&kept)
}

/// Tells whether a folder with these entries holds an image file.
pub fn has_image_file(entries: &Vec<String>) -> (found: bool)
    ensures
        found == exists|i: int| 0 <= i < entries@.len() && is_image_name(#[trigger] entries@[i]@),
{
    let mut i: usize = 0;
    while i < entries.len()
        invariant
            i <= entries@.len(),
            forall|k: int| 0 <= k < i ==> !is_image_name(#[trigger] entries@[k]@),
        decreases entries@.len() - i,
    {
        if image_kind(entries[i].as_str()).is_some() {
            return true;
        }
        i = i + 1;
    }
    false
}

} // verus!
