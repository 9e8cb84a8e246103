//! Asset inspection: decoding an image's header facts through the `image`
//! crate, and the path-derived fields of an asset record.
use vstd::prelude::*;
use crate::paths::{
    file_name, file_name_exec, lower_extension, lower_extension_exec, parent, parent_exec,
    strip_prefix, strip_prefix_exec,
};
use crate::text::{chars_eq, chars_of, string_of};

verus! {

/// What the `image` crate's `ImageReader` makes of a file's bytes when the
/// file's extension is `extension`: the decoded canvas width and height and
/// whether its colour type carries an alpha channel, or the display text
/// of the error.
pub uninterp spec fn decoding(extension: Seq<char>, bytes: Seq<u8>) -> Result<(u32, u32, bool), Seq<char>>;

/// What `image::load_from_memory_with_format` makes of a byte buffer read as
/// PNG: the canvas width and height and the alpha value of every pixel in
/// row order, or nothing when it fails.
pub uninterp spec fn png_decoding(bytes: Seq<u8>) -> Option<(u32, u32, Seq<u8>)>;

/// Decodes a file's bytes with `image::ImageReader`: the format that
/// `ImageFormat::from_extension` names for the file's extension (empty
/// when it has none) is taken first and replaced by the one that
/// `with_guessed_format` recognises in the leading bytes, as
/// `ImageReader::open` followed by `with_guessed_format` does for a file on
/// disk. Where the extension names no format and the bytes are not
/// recognised, the error text is the one for an unknown format, not the
/// one naming the extension. Claimed: the result is `decoding` of the
/// extension and the bytes.
#[verifier::external_body]
fn decode_image(extension: &str, bytes: &[u8]) -> (r: Result<(u32, u32, bool), String>)
    ensures
        match r {
            Ok(t) => decoding(extension@, bytes@) == Ok::<(u32, u32, bool), Seq<char>>(t),
            Err(e) => decoding(extension@, bytes@) == Err::<(u32, u32, bool), Seq<char>>(e@),
        },
{
    let mut reader = image::ImageReader::new(std::io::Cursor::new(bytes));
    if let Some(format) = image::ImageFormat::from_extension(extension) {
        reader.set_format(format);
    }
    match reader.with_guessed_format().map_err(|error| error.to_string())?.decode() {
        Ok(image) => Ok((image.width(), image.height(), image.color().has_alpha())),
        Err(error) => Err(error.to_string()),
    }
}

/// Calls `image::load_from_memory_with_format` with the PNG format, the one
/// `image::open` picks for a `.png` path, and takes the alpha byte of each
/// RGBA8 pixel. Claimed: the result is `png_decoding` of the bytes, with one
/// alpha value per pixel of the width-by-height canvas.
#[verifier::external_body]
fn decode_png_alpha(bytes: &[u8]) -> (r: Option<(u32, u32, Vec<u8>)>)
    ensures
        match r {
            Some(t) => png_decoding(bytes@) == Some((t.0, t.1, t.2@)) && t.2@.len() == t.0 * t.1,
            None => png_decoding(bytes@) is None,
        },
{
    match image::load_from_memory_with_format(bytes, image::ImageFormat::Png) {
        Ok(image) => Some((image.width(), image.height(), image.to_rgba8().pixels().map(|p| p[3]).collect())),
        Err(_) => None,
    }
}

/// The contents of a file as the caller read them: the bytes and the length
/// that its metadata reported (0 when that failed), or the read error.
pub enum FileRead {
    Failed(String),
    Read { contents: Vec<u8>, length: u64 },
}

/// The record of one inspected image asset.
pub struct AssetInfo {
    pub path: String,
    pub relative_path: String,
    pub directory: String,
    pub filename: String,
    pub extension: String,
    pub width: u32,
    pub height: u32,
    pub has_alpha: bool,
    pub bytes: u64,
}

/// Backslashes turned into forward slashes.
pub open spec fn forward_slashes(s: Seq<char>) -> Seq<char> {
    Seq::new(s.len(), |i: int| if s[i] == '\\' { '/' } else { s[i] })
}

/// The folder part of an asset's relative path, `/`-separated, empty at the
/// top level.
pub open spec fn directory_of(rel: Seq<char>) -> Seq<char> {
    match parent(rel) {
        Some(d) => if forward_slashes(d) == "."@ {
            Seq::empty()
        } else {
            forward_slashes(d)
        },
        None => Seq::empty(),
    }
}

/// The text held, or the empty text.
pub open spec fn or_empty(o: Option<Seq<char>>) -> Seq<char> {
    match o {
        Some(s) => s,
        None => Seq::empty(),
    }
}

/// The mathematical content of an asset record.
#[verifier::ext_equal]
pub struct AssetView {
    pub path: Seq<char>,
    pub relative_path: Seq<char>,
    pub directory: Seq<char>,
    pub filename: Seq<char>,
    pub extension: Seq<char>,
    pub width: u32,
    pub height: u32,
    pub has_alpha: bool,
    pub bytes: u64,
}

impl View for AssetInfo {
    type V = AssetView;

    open spec fn view(&self) -> AssetView {
        AssetView {
            path: self.path@,
            relative_path: self.relative_path@,
            directory: self.directory@,
            filename: self.filename@,
            extension: self.extension@,
            width: self.width,
            height: self.height,
            has_alpha: self.has_alpha,
            bytes: self.bytes,
        }
    }
}

/// An inspection result as plain values.
pub open spec fn asset_result(r: Result<AssetInfo, String>) -> Result<AssetView, Seq<char>> {
    match r {
        Ok(a) => Ok(a@),
        Err(e) => Err(e@),
    }
}

/// The record of the file at `path`, below `root`, decoded as
/// `(w, h, alpha)`, with relative path `rel` and `length` bytes.
pub open spec fn asset_record(
    path: Seq<char>,
    rel: Seq<char>,
    w: u32,
    h: u32,
    alpha: bool,
    length: u64,
) -> AssetView {
    AssetView {
        path,
        relative_path: forward_slashes(rel),
        directory: directory_of(rel),
        filename: or_empty(file_name(path)),
        extension: or_empty(lower_extension(path)),
        width: w,
        height: h,
        has_alpha: alpha,
        bytes: length,
    }
}

/// What inspecting the file at `path` below `root` answers: the read
/// error, the decoding error, a refusal when `path` is not below `root`,
/// or the asset record.
pub open spec fn inspection(path: Seq<char>, root: Seq<char>, file: FileRead) -> Result<
    AssetView,
    Seq<char>,
> {
    match file {
        FileRead::Failed(m) => Err(m@),
        FileRead::Read { contents, length } => match decoding(or_empty(lower_extension(path)), contents@) {
            Err(m) => Err(m),
            Ok((w, h, alpha)) => match strip_prefix(path, root) {
                None => Err("Asset is outside source root"@),
                Some(rel) => Ok(asset_record(path, rel, w, h, alpha, length)),
            },
        },
    }
}

/// Backslashes turned into forward slashes (see `forward_slashes`).
pub fn forward_slashes_exec(s: &[char]) -> (r: Vec<char>)
    ensures
        r@ == forward_slashes(s@),
{
    let mut r: Vec<char> = Vec::new();
    for i in 0..s.len()
        invariant
            r@ == forward_slashes(s@).take(i as int),
    {
        if s[i] == '\\' {
            r.push('/');
        } else {
            r.push(s[i]);
        }
        assert(r@ =~= forward_slashes(s@).take(i + 1));
    }
    assert(r@ =~= forward_slashes(s@));
    r
}

fn directory_exec(rel: &[char]) -> (r: Vec<char>)
    ensures
        r@ == directory_of(rel@),
{
    match parent_exec(rel) {
        Some(d) => {
            let d2 = forward_slashes_exec(&d);
            let dot = chars_of(".");
            if chars_eq(&d2, &dot) {
                Vec::new()
            } else {
                d2
            }
        },
        None => Vec::new(),
    }
}

fn or_empty_exec(o: Option<Vec<char>>) -> (r: Vec<char>)
    ensures
        r@ == or_empty(
            match o {
                Some(v) => Some(v@),
                None => None,
            },
        ),
{
    match o {
        Some(v) => v,
        None => Vec::new(),
    }
}

/// Inspects an image file: decodes its contents and derives the asset
/// record from its path relative to `root`.
pub fn inspect(path: &str, root: &str, file: &FileRead) -> (r: Result<AssetInfo, String>)
    ensures
        asset_result(r) == inspection(path@, root@, *file),
{
    match file {
        FileRead::Failed(m) => Err(m.clone()),
        FileRead::Read { contents, length } => {
            let p = chars_of(path);
            let extension = string_of(&or_empty_exec(lower_extension_exec(&p)));
            let (w, h, alpha) = match decode_image(extension.as_str(), contents.as_slice()) {
                Ok(t) => t,
                Err(e) => return Err(e),
            };
            let base = chars_of(root);
            let rel = match strip_prefix_exec(&p, &base) {
                Some(rel) => rel,
                None => return Err("Asset is outside source root".to_owned()),
            };
            let relative_path = string_of(&forward_slashes_exec(&rel));
            let directory = string_of(&directory_exec(&rel));
            let filename = string_of(&or_empty_exec(file_name_exec(&p)));
            Ok(
                AssetInfo {
                    path: path.to_owned(),
                    relative_path,
                    directory,
                    filename,
                    extension,
                    width: w,
                    height: h,
                    has_alpha: alpha,
                    bytes: *length,
                },
            )
        },
    }
}

/// Whether the alpha values of the first `min(len)` pixels agree, as a
/// zipped comparison of two pixel lists does.
pub open spec fn alphas_agree(a: Seq<u8>, b: Seq<u8>) -> bool {
    forall|i: int| 0 <= i < a.len() && 0 <= i < b.len() ==> a[i] == b[i]
}

/// The bytes of a file that was read.
pub open spec fn read_bytes(f: FileRead) -> Option<Seq<u8>> {
    match f {
        FileRead::Read { contents, .. } => Some(contents@),
        FileRead::Failed(_) => None,
    }
}

/// Whether an output PNG keeps the source's transparency: both have an
/// alpha channel or neither does, and when they do, both decode as PNG to
/// the same canvas with the same alpha value at every pixel.
pub open spec fn alpha_kept(
    source: FileRead,
    output: FileRead,
    source_has_alpha: bool,
    output_has_alpha: bool,
) -> bool {
    if source_has_alpha != output_has_alpha {
        false
    } else if !source_has_alpha {
        true
    } else {
        match (read_bytes(source), read_bytes(output)) {
            (Some(a), Some(b)) => match (png_decoding(a), png_decoding(b)) {
                (Some(x), Some(y)) => x.0 == y.0 && x.1 == y.1 && alphas_agree(x.2, y.2),
                _ => false,
            },
            _ => false,
        }
    }
}

fn alphas_agree_exec(a: &Vec<u8>, b: &Vec<u8>) -> (r: bool)
    ensures
        r == alphas_agree(a@, b@),
{
    let n = if a.len() < b.len() {
        a.len()
    } else {
        b.len()
    };
    for i in 0..n
        invariant
            n <= a@.len(),
            n <= b@.len(),
            n == a@.len() || n == b@.len(),
            forall|j: int| 0 <= j < i ==> a@[j] == b@[j],
    {
        if a[i] != b[i] {
            return false;
        }
    }
    true
}

fn png_alpha_of(f: &FileRead) -> (r: Option<(u32, u32, Vec<u8>)>)
    ensures
        match read_bytes(*f) {
            Some(b) => match r {
                Some(t) => png_decoding(b) == Some((t.0, t.1, t.2@)),
                None => png_decoding(b) is None,
            },
            None => r is None,
        },
{
    match f {
        FileRead::Read { contents, .. } => decode_png_alpha(contents.as_slice()),
        FileRead::Failed(_) => None,
    }
}

/// Checks that an output PNG keeps the source's transparency pixel for
/// pixel (see `alpha_kept`).
pub fn alpha_matches(
    source: &FileRead,
    output: &FileRead,
    source_has_alpha: bool,
    output_has_alpha: bool,
) -> (r: bool)
    ensures
        r == alpha_kept(*source, *output, source_has_alpha, output_has_alpha),
{
    if source_has_alpha != output_has_alpha {
        return false;
    }
    if !source_has_alpha {
        return true;
    }
    let a = match png_alpha_of(source) {
        Some(t) => t,
        None => {
            return false;
        },
    };
    let b = match png_alpha_of(output) {
        Some(t) => t,
        None => {
            return false;
        },
    };
    if a.0 != b.0 || a.1 != b.1 {
        return false;
    }
    alphas_agree_exec(&a.2, &b.2)
}

} // verus!
