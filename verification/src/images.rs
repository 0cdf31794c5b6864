//! Pictures that a prompt names by their files.

use crate::paths;
use crate::text;
use crate::text::Text;
use base64::Engine;
use vstd::prelude::*;
use vstd::string::*;

verus! {

/// What the file of a picture looks like in a text.
pub const IMAGE_PATTERN: &'static str =
    "(?i)(?:^|\\s)([\\w.\\-/\\\\]+\\.(?:png|jpe?g|gif|webp|bmp))(?:\\s|$)";

/// The kilobytes that a picture may have.
pub const MAX_IMAGE_KB: usize = 10240;

/// What the first group of a pattern captures in a text, match by match, as the
/// `regex` crate finds them; nothing where it takes the pattern for invalid.
pub uninterp spec fn captured(text: Text, pattern: Text) -> Option<Seq<Text>>;

/// What an optional list of texts holds.
pub open spec fn opt_texts(v: Option<Vec<String>>) -> Option<Seq<Text>> {
    match v {
        Some(v) => Some(text::texts(v@)),
        None => None,
    }
}

/// `regex::Regex::new` and `regex::Regex::captures_iter`: what the first group of
/// the pattern captures, match by match, a function of the text and the pattern
/// alone. In the pattern for pictures that group takes part in every match.
#[verifier::external_body]
fn capture(text: &str, pattern: &str) -> (r: Option<Vec<String>>)
    requires
        pattern@ == IMAGE_PATTERN@,
    ensures
        opt_texts(r) == captured(text@, pattern@),
{
    let regex = regex::Regex::new(pattern).ok()?;
    Some(regex.captures_iter(text).map(|c| c[1].to_string()).collect())
}

/// The Base64 text of bytes, in the standard alphabet, padded.
pub uninterp spec fn base64_of(bytes: Seq<u8>) -> Text;

/// `base64::Engine::encode` of `base64::engine::general_purpose::STANDARD`: the
/// bytes in Base64, a function of the bytes alone. It is asked only for sizes
/// that it can compute the length of the text for.
#[verifier::external_body]
fn encode_base64(bytes: &Vec<u8>) -> (r: String)
    requires
        bytes@.len() < 0x1000_0000,
    ensures
        r@ == base64_of(bytes@),
{
    base64::engine::general_purpose::STANDARD.encode(bytes)
}

/// The files of pictures that a text names.
pub fn image_paths(text: &str) -> (r: Vec<String>)
    ensures
        text::texts(r@) == match captured(text@, IMAGE_PATTERN@) {
            Some(found) => found,
            None => Seq::empty(),
        },
{
    match capture(text, IMAGE_PATTERN) {
        Some(found) => found,
        None => {
            let none: Vec<String> = Vec::new();
            assert(text::texts(none@) =~= Seq::<Text>::empty());
            none
        },
    }
}

// ---------------------------------------------------------------------------
// Kinds of pictures
// ---------------------------------------------------------------------------

/// The name of the file that a path leads to; nothing for the root, `.` or `..`.
pub open spec fn file_name(path: Text) -> Option<Text> {
    let parts = paths::components_of(path);
    if parts.len() == 0 || parts.last() == "/"@ || parts.last() == "."@ || parts.last() == ".."@ {
        None
    } else {
        Some(parts.last())
    }
}

/// Where the last dot of a name stands; -1 without one.
pub open spec fn last_dot(name: Text) -> int
    decreases name.len(),
{
    if name.len() == 0 {
        -1
    } else if name.last() == '.' {
        name.len() - 1
    } else {
        last_dot(name.drop_last())
    }
}

/// The extension of a file: what follows the last dot of its name, unless the
/// name begins with that dot.
pub open spec fn extension(path: Text) -> Option<Text> {
    match file_name(path) {
        Some(name) => if last_dot(name) > 0 {
            Some(name.skip(last_dot(name) + 1))
        } else {
            None
        },
        None => None,
    }
}

/// The media type of an extension in lower case.
pub open spec fn media_type_of(lower: Text) -> Text {
    if lower == "jpg"@ || lower == "jpeg"@ {
        "image/jpeg"@
    } else if lower == "gif"@ {
        "image/gif"@
    } else if lower == "webp"@ {
        "image/webp"@
    } else if lower == "bmp"@ {
        "image/bmp"@
    } else {
        "image/png"@
    }
}

/// The media type of a file, by its extension; that of a PNG where it has none.
pub open spec fn media_type(path: Text) -> Text {
    media_type_of(
        text::lowercased(
            match extension(path) {
                Some(e) => e,
                None => "png"@,
            },
        ),
    )
}

fn find_extension(path: &str) -> (r: Option<String>)
    ensures
        text::opt_text(r) == extension(path@),
{
    let parts = paths::components(path);
    let ghost all = paths::components_of(path@);
    assert(all.len() == parts@.len());
    let n: usize = parts.len();
    if n == 0 {
        return None;
    }
    assert(all.last() == parts@[n - 1]@);
    let name = parts[n - 1].as_str();
    if text::same(name, "/") || text::same(name, ".") || text::same(name, "..") {
        return None;
    }
    let chars = text::to_chars(name);
    let mut k: usize = chars.len();
    assert(chars@.take(k as int) =~= name@);
    while k > 0
        invariant
            k <= chars@.len(),
            chars@ == name@,
            last_dot(name@) == last_dot(name@.take(k as int)),
            extension(path@) == (if last_dot(name@) > 0 {
                Some(name@.skip(last_dot(name@) + 1))
            } else {
                None
            }),
        decreases k,
    {
        assert(name@.take(k as int).last() == chars@[k - 1]);
        assert(name@.take(k as int).drop_last() =~= name@.take(k - 1));
        if chars[k - 1] == '.' {
            if k == 1 {
                return None;
            }
            let e = text::from_chars(&chars, k, chars.len());
            assert(e@ =~= name@.skip(k as int));
            return Some(e);
        }
        k = k - 1;
    }
    None
}

/// The media type of an extension in lower case.
pub fn known_media_type(lower: &str) -> (r: String)
    ensures
        r@ == media_type_of(lower@),
{
    if text::same(lower, "jpg") || text::same(lower, "jpeg") {
        text::copy("image/jpeg")
    } else if text::same(lower, "gif") {
        text::copy("image/gif")
    } else if text::same(lower, "webp") {
        text::copy("image/webp")
    } else if text::same(lower, "bmp") {
        text::copy("image/bmp")
    } else {
        text::copy("image/png")
    }
}

fn find_media_type(path: &str) -> (r: String)
    ensures
        r@ == media_type(path@),
{
    let e = match find_extension(path) {
        Some(e) => e,
        None => text::copy("png"),
    };
    let lower = text::to_lower(e.as_str());
    known_media_type(lower.as_str())
}

// ---------------------------------------------------------------------------
// Attaching pictures
// ---------------------------------------------------------------------------

/// A text from which pictures are taken, and the pictures that were.
#[verifier::ext_equal]
pub struct Attached {
    pub text: Text,
    pub images: Seq<(Text, Text)>,
}

/// What a list of pictures holds: each with its media type, in Base64.
pub open spec fn images_view(v: Seq<(String, String)>) -> Seq<(Text, Text)> {
    Seq::new(v.len(), |i: int| (v[i].0@, v[i].1@))
}

/// What the files of pictures hold, where they could be read.
pub open spec fn files_view(v: Seq<Option<Vec<u8>>>) -> Seq<Option<Seq<u8>>> {
    Seq::new(
        v.len(),
        |i: int|
            match v[i] {
                Some(bytes) => Some(bytes@),
                None => None,
            },
    )
}

/// Whether a picture is small enough to be sent.
pub open spec fn is_small(bytes: Seq<u8>) -> bool {
    bytes.len() / 1024 <= MAX_IMAGE_KB
}

/// The text and the pictures after the first `n` files: a file that could be
/// read and is small enough is attached, and its path taken out of the text.
pub open spec fn attached(
    text: Text,
    found: Seq<Text>,
    files: Seq<Option<Seq<u8>>>,
    n: int,
) -> Attached
    decreases n,
{
    if n <= 0 {
        Attached { text, images: Seq::empty() }
    } else {
        let before = attached(text, found, files, n - 1);
        match files[n - 1] {
            Some(bytes) if is_small(bytes) => Attached {
                text: without_path(before.text, found[n - 1]),
                images: before.images.push((media_type(found[n - 1]), base64_of(bytes))),
            },
            _ => before,
        }
    }
}

/// A text without a path.
pub open spec fn without_path(text: Text, path: Text) -> Text {
    if path.len() == 0 {
        text
    } else {
        text::replaced(text, path, ""@)
    }
}

/// The prompt that is left: as it was, where nothing was attached; else its
/// words, or a note where there are none.
pub open spec fn cleaned(a: Attached) -> Text {
    if a.images.len() == 0 {
        a.text
    } else {
        let words = text::joined(text::words_of(a.text), " "@);
        if words.len() == 0 {
            "[Attached image(s)]"@
        } else {
            words
        }
    }
}

/// Attach the pictures that a text names. `found` are their paths, and `files`
/// what could be read of each.
pub fn attach_images(
    text: &str,
    found: &Vec<String>,
    files: &Vec<Option<Vec<u8>>>,
) -> (r: (String, Vec<(String, String)>))
    requires
        found@.len() == files@.len(),
    ensures
        ({
            let a = attached(
                text@,
                text::texts(found@),
                files_view(files@),
                found@.len() as int,
            );
            r.0@ == cleaned(a) && images_view(r.1@) == a.images
        }),
{
    let ghost names = text::texts(found@);
    let ghost read = files_view(files@);
    let mut left = text::copy(text);
    let mut images: Vec<(String, String)> = Vec::new();
    let mut i: usize = 0;
    assert(images_view(images@) =~= Seq::<(Text, Text)>::empty());
    while i < found.len()
        invariant
            i <= found@.len(),
            found@.len() == files@.len(),
            names == text::texts(found@),
            read == files_view(files@),
            left@ == attached(text@, names, read, i as int).text,
            images_view(images@) == attached(text@, names, read, i as int).images,
        decreases found@.len() - i,
    {
        let path = found[i].as_str();
        assert(names[i as int] == path@);
        if let Some(bytes) = &files[i] {
            assert(read[i as int] == Some(bytes@));
            if bytes.len() / 1024 <= MAX_IMAGE_KB {
                let ghost was = images_view(images@);
                let kind = find_media_type(path);
                let data = encode_base64(bytes);
                let ghost added = (kind@, data@);
                images.push((kind, data));
                assert(images_view(images@) =~= was.push(added));
                if !path.is_empty() {
                    left = text::replace(left.as_str(), path, "");
                }
            }
        }
        i = i + 1;
    }
    assert(images_view(images@).len() == images@.len());
    if images.len() == 0 {
        return (left, images);
    }
    let words = text::words(left.as_str());
    let cleaned_text = text::join(&words, " ");
    if cleaned_text.as_str().is_empty() {
        (text::copy("[Attached image(s)]"), images)
    } else {
        (cleaned_text, images)
    }
}

/// Where no file could be read, the text stays as it is, and nothing is
/// attached.
pub proof fn law_nothing_read_nothing_attached(
    text: Text,
    found: Seq<Text>,
    files: Seq<Option<Seq<u8>>>,
    n: int,
)
    requires
        0 <= n <= files.len(),
        forall|i: int| 0 <= i < files.len() ==> (#[trigger] files[i]) is None,
    ensures
        attached(text, found, files, n).images.len() == 0,
        cleaned(attached(text, found, files, n)) == text,
    decreases n,
{
    if n > 0 {
        law_nothing_read_nothing_attached(text, found, files, n - 1);
        assert(files[n - 1] is None);
    }
}

/// What is left of a prompt with pictures is never empty.
pub proof fn law_prompt_is_never_empty(a: Attached)
    requires
        a.images.len() > 0,
    ensures
        cleaned(a).len() > 0,
{
    reveal_strlit("[Attached image(s)]");
}

/// Every picture that could be read and is small enough is attached, in the order in which
/// the prompt names them, with its own type and all its bytes; and no other.
pub proof fn law_readable_pictures_are_attached(
    text: Text,
    found: Seq<Text>,
    files: Seq<Option<Seq<u8>>>,
    n: int,
)
    requires
        0 <= n <= files.len(),
        found.len() == files.len(),
    ensures
        attached(text, found, files, n).images == Seq::new(
            n as nat,
            |i: int| (found[i], files[i]),
        ).filter_map(
            |f: (Text, Option<Seq<u8>>)|
                match f.1 {
                    Some(bytes) => if bytes.len() / 1024 <= MAX_IMAGE_KB {
                        Some((media_type(f.0), base64_of(bytes)))
                    } else {
                        None
                    },
                    None => None,
                },
        ),
    decreases n,
{
    let named = Seq::new(n as nat, |i: int| (found[i], files[i]));
    let f = |f: (Text, Option<Seq<u8>>)|
        match f.1 {
            Some(bytes) => if bytes.len() / 1024 <= MAX_IMAGE_KB {
                Some((media_type(f.0), base64_of(bytes)))
            } else {
                None
            },
            None => None,
        };
    if n > 0 {
        law_readable_pictures_are_attached(text, found, files, n - 1);
        let before = Seq::new((n - 1) as nat, |i: int| (found[i], files[i]));
        assert(named.drop_last() =~= before);
        assert(named.filter_map(f) == match f(named.last()) {
            Some(x) => before.filter_map(f) + seq![x],
            None => before.filter_map(f),
        });
        assert(attached(text, found, files, n).images =~= named.filter_map(f));
    } else {
        assert(named =~= Seq::<(Text, Option<Seq<u8>>)>::empty());
        assert(attached(text, found, files, n).images =~= named.filter_map(f));
    }
}

} // verus!
