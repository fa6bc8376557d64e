//! Decides which clipboard representation a single input calls for: by
//! its extension where that settles it, else by the first bytes of its
//! content.

use vstd::prelude::*;
use vstd::slice::slice_subrange;
use crate::paths::{path_views, InputPath, PathView};
use crate::strings::{chars_of, push_char, same_text};

verus! {

/// The clipboard representation chosen for one input.
#[derive(Debug, Clone, Copy, PartialEq, Eq, Structural)]
pub enum ClipboardStrategy {
    /// A bitmap.
    Image,
    /// A file object: binaries, assets, archives.
    File,
    /// Plain text.
    Text,
}

/// Why an input got no verdict.
#[derive(Debug, Clone, Copy, PartialEq, Eq, Structural)]
pub enum ClassifyError {
    /// The content was needed and could not be read.
    Unreadable,
}

/// How many bytes of a file's content the classifier looks at.
pub const SAMPLE_LEN: usize = 262;

/// The lower-case form of an ASCII capital; any other character itself.
pub open spec fn ascii_lower(c: char) -> char {
    if 'A' <= c && c <= 'Z' {
        ((c as u8) + 32) as char
    } else {
        c
    }
}

/// `text` with its ASCII capitals in lower case.
pub open spec fn lowered(text: Seq<char>) -> Seq<char> {
    text.map_values(|c: char| ascii_lower(c))
}

/// The extensions that always mean a file object, whatever the content.
pub open spec fn asset_names() -> Seq<Seq<char>> {
    seq![
        "dxf"@,
        "obj"@,
        "stl"@,
        "ply"@,
        "gcode"@,
        "svg"@,
        "eps"@,
        "ai"@,
        "psd"@,
        "pdf"@,
        "zip"@,
        "7z"@,
        "tar"@,
        "gz"@,
        "rar"@,
        "iso"@,
        "dll"@,
        "bin"@,
        "exe"@,
        "jar"@,
        "class"@,
    ]
}

/// Whether `extension` is one of the asset extensions, in any mix of
/// upper and lower case.
pub open spec fn is_asset_name(extension: Seq<char>) -> bool {
    asset_names().contains(lowered(extension))
}

/// Whether the extension of `path` settles the verdict. A path without
/// extension never does.
pub open spec fn overrides(path: PathView) -> bool {
    match path.extension {
        Some(e) => is_asset_name(e),
        None => false,
    }
}

/// Whether `infer::is_image` finds the signature of an image format at the
/// start of `buf`.
pub uninterp spec fn image_signature(buf: Seq<u8>) -> bool;

/// Whether `infer::is_archive` finds the signature of an archive format in
/// `buf`.
pub uninterp spec fn archive_signature(buf: Seq<u8>) -> bool;

/// Whether `infer::is_app` finds the signature of an executable or
/// application format at the start of `buf`.
pub uninterp spec fn app_signature(buf: Seq<u8>) -> bool;

/// `infer::is_image`: tries each of the crate's image matchers on `buf`.
/// The answer depends on the bytes alone.
pub assume_specification[ infer::is_image ](buf: &[u8]) -> (r: bool)
    ensures
        r == image_signature(buf@),
;

/// `infer::is_archive`: tries each of the crate's archive matchers on
/// `buf`. The answer depends on the bytes alone.
pub assume_specification[ infer::is_archive ](buf: &[u8]) -> (r: bool)
    ensures
        r == archive_signature(buf@),
;

/// `infer::is_app`: tries each of the crate's application matchers on
/// `buf`. The answer depends on the bytes alone.
pub assume_specification[ infer::is_app ](buf: &[u8]) -> (r: bool)
    ensures
        r == app_signature(buf@),
;

/// `infer::doc::is_doc`: reports a legacy Word document where `buf` opens
/// as a compound file whose root entry carries Word's class id. A buffer
/// shorter than the 512 bytes of a compound-file header never opens as
/// one, so on such a buffer the answer is no.
pub assume_specification[ infer::doc::is_doc ](buf: &[u8]) -> (r: bool)
    requires
        buf@.len() < 512,
    ensures
        !r,
;

/// The part of a file's content that the classifier looks at: its first
/// `SAMPLE_LEN` bytes, or all of it where it is shorter.
pub open spec fn sample_of(content: Seq<u8>) -> Seq<u8> {
    if content.len() <= SAMPLE_LEN {
        content
    } else {
        content.take(SAMPLE_LEN as int)
    }
}

/// The verdict on a sample: the empty sample is text, for it holds no
/// signature; an image signature makes an image; an archive or
/// application signature, or else a null byte anywhere, makes a file
/// object; all else is text.
///
/// Legacy Word documents are looked for as well, but a sample is too
/// short to open as a compound document, so that look never finds one;
/// the magic bytes of compound documents are among the archive
/// signatures.
pub open spec fn content_verdict(sample: Seq<u8>) -> ClipboardStrategy {
    if sample.len() == 0 {
        ClipboardStrategy::Text
    } else if image_signature(sample) {
        ClipboardStrategy::Image
    } else if archive_signature(sample) || app_signature(sample) {
        ClipboardStrategy::File
    } else if sample.contains(0u8) {
        ClipboardStrategy::File
    } else {
        ClipboardStrategy::Text
    }
}

/// The verdict on an input: a file object where the extension says so,
/// without a look at the content; else the verdict on the content's
/// sample, and an error where there is no content to look at.
pub open spec fn verdict(path: PathView, content: Option<Seq<u8>>) -> Result<
    ClipboardStrategy,
    ClassifyError,
> {
    if overrides(path) {
        Ok(ClipboardStrategy::File)
    } else {
        match content {
            Some(bytes) => Ok(content_verdict(sample_of(bytes))),
            None => Err(ClassifyError::Unreadable),
        }
    }
}

/// An asset extension decides alone: the verdict is a file object whatever
/// the content holds, and whether or not there is any.
pub proof fn lemma_asset_extension_decides(path: PathView, content: Option<Seq<u8>>)
    requires
        path.extension matches Some(e) && is_asset_name(e),
    ensures
        verdict(path, content) == Ok::<ClipboardStrategy, ClassifyError>(ClipboardStrategy::File),
{
}

/// The case of an extension's letters makes no difference.
pub proof fn lemma_asset_name_ignores_case(a: Seq<char>, b: Seq<char>)
    requires
        lowered(a) == lowered(b),
    ensures
        is_asset_name(a) == is_asset_name(b),
{
}

/// A sample with a null byte and no image signature is a file object,
/// whatever the path.
pub proof fn lemma_null_byte_means_file(path: PathView, content: Seq<u8>)
    requires
        sample_of(content).contains(0u8),
        !image_signature(sample_of(content)),
    ensures
        content_verdict(sample_of(content)) == ClipboardStrategy::File,
        verdict(path, Some(content)) == Ok::<ClipboardStrategy, ClassifyError>(
            ClipboardStrategy::File,
        ),
{
}

/// The lower-case form of an ASCII capital; any other character itself.
pub fn to_ascii_lower(c: char) -> (r: char)
    ensures
        r == ascii_lower(c),
{
    if 'A' <= c && c <= 'Z' {
        ((c as u8) + 32) as char
    } else {
        c
    }
}

/// `text` with its ASCII capitals in lower case.
pub fn lowercase(text: &str) -> (out: String)
    ensures
        out@ == lowered(text@),
{
    let chars = chars_of(text);
    let mut out = String::new();
    let mut i: usize = 0;
    while i < chars.len()
        invariant
            i <= chars.len(),
            chars@ == text@,
            out@ == lowered(chars@.take(i as int)),
        decreases chars.len() - i,
    {
        push_char(&mut out, to_ascii_lower(chars[i]));
        assert(chars@.take(i + 1) == chars@.take(i as int).push(chars@[i as int]));
        i += 1;
    }
    assert(chars@.take(i as int) == chars@);
    out
}

/// Whether `extension` is one of the asset extensions, in any mix of
/// upper and lower case.
pub fn is_asset_extension_name(extension: &str) -> (r: bool)
    ensures
        r == is_asset_name(extension@),
{
    let lower = lowercase(extension);
    let names: Vec<&'static str> = vec![
        "dxf",
        "obj",
        "stl",
        "ply",
        "gcode",
        "svg",
        "eps",
        "ai",
        "psd",
        "pdf",
        "zip",
        "7z",
        "tar",
        "gz",
        "rar",
        "iso",
        "dll",
        "bin",
        "exe",
        "jar",
        "class",
    ];
    assert(names@.map_values(|s: &'static str| s@) == asset_names());
    let mut i: usize = 0;
    while i < names.len()
        invariant
            i <= names.len(),
            names@.map_values(|s: &'static str| s@) == asset_names(),
            lower@ == lowered(extension@),
            forall|k: int| 0 <= k < i ==> asset_names()[k] != lower@,
        decreases names.len() - i,
    {
        assert(names@.map_values(|s: &'static str| s@)[i as int] == names@[i as int]@);
        if same_text(names[i], lower.as_str()) {
            assert(asset_names()[i as int] == lower@);
            return true;
        }
        i += 1;
    }
    false
}

/// Whether the extension of `path` decides alone, which makes the input
/// a file object whatever it holds.
pub fn is_asset_extension(path: &InputPath) -> (r: bool)
    ensures
        r == overrides(path@),
{
    match &path.extension {
        Some(e) => is_asset_extension_name(e.as_str()),
        None => false,
    }
}

/// Whether `bytes` holds a null byte.
pub fn has_null_byte(bytes: &[u8]) -> (r: bool)
    ensures
        r == bytes@.contains(0u8),
{
    let mut i: usize = 0;
    while i < bytes.len()
        invariant
            i <= bytes.len(),
            forall|k: int| 0 <= k < i ==> bytes@[k] != 0u8,
        decreases bytes.len() - i,
    {
        if bytes[i] == 0 {
            return true;
        }
        i += 1;
    }
    false
}

/// Classifies a file by its content, of which only the first `SAMPLE_LEN`
/// bytes count. An empty file is text.
pub fn classify_content(content: &[u8]) -> (r: ClipboardStrategy)
    ensures
        r == content_verdict(sample_of(content@)),
        content@.len() == 0 ==> r == ClipboardStrategy::Text,
{
    let sample = if content.len() <= SAMPLE_LEN {
        content
    } else {
        slice_subrange(content, 0, SAMPLE_LEN)
    };
    if sample.len() == 0 {
        return ClipboardStrategy::Text;
    }
    if infer::is_image(sample) {
        return ClipboardStrategy::Image;
    }
    if infer::is_archive(sample) || infer::is_app(sample) || infer::doc::is_doc(sample) {
        return ClipboardStrategy::File;
    }
    if has_null_byte(sample) {
        return ClipboardStrategy::File;
    }
    ClipboardStrategy::Text
}

/// Classifies one input. The extension is looked at first and decides
/// alone where it is an asset extension; only else is the content needed,
/// and `None` in its place, for a file that could not be read, is an
/// error.
pub fn inspect(path: &InputPath, content: Option<&[u8]>) -> (r: Result<
    ClipboardStrategy,
    ClassifyError,
>)
    ensures
        r == verdict(
            path@,
            match content {
                Some(bytes) => Some(bytes@),
                None => None,
            },
        ),
        content matches Some(bytes) ==> (!overrides(path@) && bytes@.len() == 0 ==> r == Ok::<
            ClipboardStrategy,
            ClassifyError,
        >(ClipboardStrategy::Text)),
{
    if is_asset_extension(path) {
        return Ok(ClipboardStrategy::File);
    }
    match content {
        Some(bytes) => Ok(classify_content(bytes)),
        None => Err(ClassifyError::Unreadable),
    }
}

/// What could be read of each input of a batch: the bytes, or nothing.
pub open spec fn content_views(contents: Seq<Option<Vec<u8>>>) -> Seq<Option<Seq<u8>>> {
    contents.map_values(
        |c: Option<Vec<u8>>|
            match c {
                Some(bytes) => Some(bytes@),
                None => None,
            },
    )
}

/// The content that goes with the path at index `i`: none where
/// `contents` is too short to hold one.
pub open spec fn content_at(contents: Seq<Option<Seq<u8>>>, i: int) -> Option<Seq<u8>> {
    if 0 <= i < contents.len() {
        contents[i]
    } else {
        None
    }
}

/// The verdicts on the first `n` paths, or the index of the first among
/// them that got none.
pub open spec fn verdicts_upto(
    paths: Seq<PathView>,
    contents: Seq<Option<Seq<u8>>>,
    n: int,
) -> Result<Seq<ClipboardStrategy>, int>
    decreases n,
{
    if n <= 0 {
        Ok(Seq::empty())
    } else {
        match verdicts_upto(paths, contents, n - 1) {
            Ok(ahead) => match verdict(paths[n - 1], content_at(contents, n - 1)) {
                Ok(v) => Ok(ahead.push(v)),
                Err(_) => Err(n - 1),
            },
            Err(i) => Err(i),
        }
    }
}

/// A run that has ended on an input does not go on to later ones.
pub proof fn lemma_first_failure_ends_run(
    paths: Seq<PathView>,
    contents: Seq<Option<Seq<u8>>>,
    n: int,
    m: int,
)
    requires
        n <= m,
        verdicts_upto(paths, contents, n) is Err,
    ensures
        verdicts_upto(paths, contents, m) == verdicts_upto(paths, contents, n),
    decreases m - n,
{
    if n < m {
        lemma_first_failure_ends_run(paths, contents, n, m - 1);
    }
}

/// Classifies every path of a batch, in order. `contents[i]` goes with
/// `paths[i]`. The first input that gets no verdict ends the run, and its
/// index is the error.
pub fn inspect_all(paths: &Vec<InputPath>, contents: &Vec<Option<Vec<u8>>>) -> (r: Result<
    Vec<ClipboardStrategy>,
    usize,
>)
    ensures
        match r {
            Ok(verdicts) => Ok::<Seq<ClipboardStrategy>, int>(verdicts@),
            Err(i) => Err(i as int),
        } == verdicts_upto(path_views(paths@), content_views(contents@), paths.len() as int),
        r matches Ok(verdicts) ==> verdicts.len() == paths.len(),
        r matches Err(i) ==> i < paths.len(),
{
    let mut verdicts: Vec<ClipboardStrategy> = Vec::new();
    let mut i: usize = 0;
    while i < paths.len()
        invariant
            i <= paths.len(),
            verdicts.len() == i,
            verdicts_upto(path_views(paths@), content_views(contents@), i as int) == Ok::<
                Seq<ClipboardStrategy>,
                int,
            >(verdicts@),
        decreases paths.len() - i,
    {
        let outcome = if i < contents.len() {
            match &contents[i] {
                Some(bytes) => inspect(&paths[i], Some(bytes.as_slice())),
                None => inspect(&paths[i], None),
            }
        } else {
            inspect(&paths[i], None)
        };
        assert(path_views(paths@)[i as int] == paths@[i as int]@);
        match outcome {
            Ok(v) => {
                verdicts.push(v);
            },
            Err(_) => {
                proof {
                    lemma_first_failure_ends_run(
                        path_views(paths@),
                        content_views(contents@),
                        i + 1,
                        paths.len() as int,
                    );
                }
                return Err(i);
            },
        }
        i += 1;
    }
    Ok(verdicts)
}

} // verus!
