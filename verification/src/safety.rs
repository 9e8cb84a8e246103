//! The rules on which paths the studio accepts: image extensions, and
//! relative paths that cannot leave the folder they are joined to.
use vstd::prelude::*;
use crate::paths::{
    all_normal, comp_view, comp_views, components, has_root, lower_extension,
    lower_extension_exec, path_components, PathComp,
};
use crate::imaging::{forward_slashes, forward_slashes_exec};
use crate::text::{chars_eq, chars_of};

verus! {

/// The extensions that can be inspected and processed.
pub open spec fn is_supported_ext(e: Seq<char>) -> bool {
    e == "png"@ || e == "jpg"@ || e == "jpeg"@
}

/// The extensions of files that look like images, supported or not.
pub open spec fn is_image_ext(e: Seq<char>) -> bool {
    ||| is_supported_ext(e)
    ||| e == "gif"@
    ||| e == "bmp"@
    ||| e == "webp"@
    ||| e == "tif"@
    ||| e == "tiff"@
    ||| e == "svg"@
    ||| e == "psd"@
    ||| e == "tga"@
}

/// Whether a path names a PNG, JPG or JPEG file (extension compared without
/// regard to ASCII case).
pub open spec fn has_supported_extension(p: Seq<char>) -> bool {
    match lower_extension(p) {
        Some(e) => is_supported_ext(e),
        None => false,
    }
}

/// Whether a path names a file of a common image format, supported or not.
pub open spec fn has_image_extension(p: Seq<char>) -> bool {
    match lower_extension(p) {
        Some(e) => is_image_ext(e),
        None => false,
    }
}

/// Whether a character is an ASCII letter.
pub open spec fn is_ascii_letter(c: char) -> bool {
    ('a' <= c && c <= 'z') || ('A' <= c && c <= 'Z')
}

/// No drive prefix: on Windows a path that starts with an ASCII letter and
/// a colon (`C:x.png`) begins with a drive prefix. A colon anywhere else
/// leaves the path's components plain names.
pub open spec fn no_drive_prefix(p: Seq<char>) -> bool {
    !(p.len() >= 2 && is_ascii_letter(p[0]) && p[1] == ':')
}

/// Not rooted and made of plain names only, with `/` as the separator.
pub open spec fn plain_relative(p: Seq<char>) -> bool {
    !has_root(p) && all_normal(components(p))
}

/// A relative path whose every component is a plain name on every
/// platform: no root, no `.` at its start and no `..` anywhere, whether
/// only `/` separates components (as on Unix) or a backslash does too (as
/// on Windows), and no drive prefix such as `C:` that Windows would read.
pub open spec fn stays_inside(p: Seq<char>) -> bool {
    plain_relative(p) && plain_relative(forward_slashes(p)) && no_drive_prefix(p)
}

/// A text result as plain values.
pub open spec fn result_view(r: Result<String, String>) -> Result<Seq<char>, Seq<char>> {
    match r {
        Ok(s) => Ok(s@),
        Err(e) => Err(e@),
    }
}

/// What `safe_relative` answers for a path text.
pub open spec fn safe_relative_spec(v: Seq<char>) -> Result<Seq<char>, Seq<char>> {
    if !stays_inside(v) {
        Err("Unsafe relative path: "@ + v)
    } else if !has_supported_extension(v) {
        Err("Unsupported output extension: "@ + v)
    } else {
        Ok(v)
    }
}

/// What `safe_resource_relative` answers for a path text.
pub open spec fn safe_resource_relative_spec(v: Seq<char>) -> Result<Seq<char>, Seq<char>> {
    if v.len() == 0 || !stays_inside(v) {
        Err("Unsafe resource destination: "@ + v)
    } else {
        Ok(v)
    }
}

fn ext_is(e: &Vec<char>, lit: &str) -> (r: bool)
    ensures
        r == (e@ == lit@),
{
    let l = chars_of(lit);
    chars_eq(e, &l)
}

/// Whether `path` has a PNG, JPG or JPEG extension.
pub fn supported_extension(path: &str) -> (r: bool)
    ensures
        r == has_supported_extension(path@),
{
    let p = chars_of(path);
    match lower_extension_exec(&p) {
        Some(e) => ext_is(&e, "png") || ext_is(&e, "jpg") || ext_is(&e, "jpeg"),
        None => false,
    }
}

/// Whether `path` has the extension of a common image format.
pub fn looks_like_image(path: &str) -> (r: bool)
    ensures
        r == has_image_extension(path@),
{
    let p = chars_of(path);
    match lower_extension_exec(&p) {
        Some(e) => ext_is(&e, "png") || ext_is(&e, "jpg") || ext_is(&e, "jpeg") || ext_is(
            &e,
            "gif",
        ) || ext_is(&e, "bmp") || ext_is(&e, "webp") || ext_is(&e, "tif") || ext_is(&e, "tiff")
            || ext_is(&e, "svg") || ext_is(&e, "psd") || ext_is(&e, "tga"),
        None => false,
    }
}

fn all_normal_exec(c: &Vec<PathComp>) -> (r: bool)
    ensures
        r == all_normal(comp_views(c@)),
{
    for i in 0..c.len()
        invariant
            forall|j: int| 0 <= j < i ==> comp_views(c@)[j] is Normal,
    {
        match &c[i] {
            PathComp::Normal(_) => {},
            _ => {
                assert(comp_views(c@)[i as int] == comp_view(c@[i as int]));
                return false;
            },
        }
    }
    true
}

/// Whether a path is relative and made of plain names only on every
/// platform (see `stays_inside`).
fn no_drive_prefix_exec(p: &[char]) -> (r: bool)
    ensures
        r == no_drive_prefix(p@),
{
    if p.len() >= 2 {
        let c = p[0];
        let letter = ('a' <= c && c <= 'z') || ('A' <= c && c <= 'Z');
        !(letter && p[1] == ':')
    } else {
        true
    }
}

fn plain_relative_exec(p: &[char]) -> (r: bool)
    ensures
        r == plain_relative(p@),
{
    let absolute = p.len() > 0 && p[0] == '/';
    let c = path_components(p);
    !absolute && all_normal_exec(&c)
}

pub fn stays_inside_exec(p: &[char]) -> (r: bool)
    ensures
        r == stays_inside(p@),
{
    plain_relative_exec(p) && plain_relative_exec(&forward_slashes_exec(p)) && no_drive_prefix_exec(p)
}

fn message(prefix: &str, value: &str) -> (m: String)
    ensures
        m@ == prefix@ + value@,
{
    let mut m = prefix.to_owned();
    m.append(value);
    m
}

/// Accepts a relative path that stays inside the folder it is joined to
/// and names a supported image file; the error says which rule failed.
pub fn safe_relative(value: &str) -> (r: Result<String, String>)
    ensures
        result_view(r) == safe_relative_spec(value@),
{
    let p = chars_of(value);
    if !stays_inside_exec(&p) {
        return Err(message("Unsafe relative path: ", value));
    }
    if !supported_extension(value) {
        return Err(message("Unsupported output extension: ", value));
    }
    Ok(value.to_owned())
}

/// Accepts a non-empty relative path that stays inside the folder it is
/// joined to.
pub fn safe_resource_relative(value: &str) -> (r: Result<String, String>)
    ensures
        result_view(r) == safe_resource_relative_spec(value@),
{
    let p = chars_of(value);
    if p.len() == 0 || !stays_inside_exec(&p) {
        return Err(message("Unsafe resource destination: ", value));
    }
    Ok(value.to_owned())
}

} // verus!
