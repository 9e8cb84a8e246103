//! Structural validation of processed assets: an output is accepted only
//! when it mirrors its source's relative path, name, extension, canvas and
//! PNG transparency exactly.
use vstd::prelude::*;
use crate::imaging::{
    alpha_kept, alpha_matches, asset_result, forward_slashes, forward_slashes_exec, inspect,
    inspection, AssetInfo, AssetView, FileRead,
};
use crate::paths::{join, join_exec, same_path, same_path_exec, starts_with, starts_with_exec};
use crate::safety::{result_view, safe_relative, safe_relative_spec};
use crate::text::{chars_eq, chars_of, string_of};

verus! {

/// One entry of a worker's batch response.
pub struct WorkerItem {
    pub relative_path: String,
    pub status: String,
    pub message: String,
}

/// The outcome reported for one requested asset.
pub struct ProcessResult {
    pub relative_path: String,
    pub output_path: String,
    pub status: String,
    pub valid: bool,
    pub message: String,
    pub source_width: u32,
    pub source_height: u32,
    pub output_width: Option<u32>,
    pub output_height: Option<u32>,
    pub alpha_preserved: bool,
}

/// The mathematical content of a `ProcessResult`.
#[verifier::ext_equal]
pub struct ResultView {
    pub relative_path: Seq<char>,
    pub output_path: Seq<char>,
    pub status: Seq<char>,
    pub valid: bool,
    pub message: Seq<char>,
    pub source_width: u32,
    pub source_height: u32,
    pub output_width: Option<u32>,
    pub output_height: Option<u32>,
    pub alpha_preserved: bool,
}

impl View for ProcessResult {
    type V = ResultView;

    open spec fn view(&self) -> ResultView {
        ResultView {
            relative_path: self.relative_path@,
            output_path: self.output_path@,
            status: self.status@,
            valid: self.valid,
            message: self.message@,
            source_width: self.source_width,
            source_height: self.source_height,
            output_width: self.output_width,
            output_height: self.output_height,
            alpha_preserved: self.alpha_preserved,
        }
    }
}

/// A result that is not valid and records no output canvas.
pub open spec fn unvalidated(
    rel: Seq<char>,
    out: Seq<char>,
    status: Seq<char>,
    message: Seq<char>,
    sw: u32,
    sh: u32,
) -> ResultView {
    ResultView {
        relative_path: rel,
        output_path: out,
        status,
        valid: false,
        message,
        source_width: sw,
        source_height: sh,
        output_width: None,
        output_height: None,
        alpha_preserved: false,
    }
}

/// A failed result with no validated output.
pub open spec fn failure(rel: Seq<char>, out: Seq<char>, message: Seq<char>, sw: u32, sh: u32) -> ResultView {
    unvalidated(rel, out, "failed"@, message, sw, sh)
}

/// The verdict on an output whose record is `o` for a source whose record
/// is `s`: valid exactly when the canvases agree and the alpha and name
/// checks passed.
pub open spec fn verdict(
    rel: Seq<char>,
    out: Seq<char>,
    s: AssetView,
    o: AssetView,
    alpha_ok: bool,
    name_ok: bool,
    ok_message: Seq<char>,
    fail_message: Seq<char>,
) -> ResultView {
    let valid = s.width == o.width && s.height == o.height && alpha_ok && name_ok;
    ResultView {
        relative_path: rel,
        output_path: out,
        status: if valid {
            "complete"@
        } else {
            "failed"@
        },
        valid,
        message: if valid {
            ok_message
        } else {
            fail_message
        },
        source_width: s.width,
        source_height: s.height,
        output_width: Some(o.width),
        output_height: Some(o.height),
        alpha_preserved: alpha_ok,
    }
}

/// The transparency rule: only PNG sources are held to it.
pub open spec fn alpha_rule(s: AssetView, o: AssetView, source: FileRead, output: FileRead) -> bool {
    s.extension != "png"@ || alpha_kept(source, output, s.has_alpha, o.has_alpha)
}

/// What a valid worker entry's message gains.
pub open spec fn worker_ok_suffix() -> Seq<char> {
    "; exact size, path, name, extension, and pixel alpha validated"@
}

/// What `validated_worker_result` reports for a worker's entry.
pub open spec fn worker_verdict(
    source_root: Seq<char>,
    output_root: Seq<char>,
    item_rel: Seq<char>,
    item_status: Seq<char>,
    item_message: Seq<char>,
    source: FileRead,
    output: FileRead,
) -> ResultView {
    match safe_relative_spec(item_rel) {
        Err(m) => failure(item_rel, Seq::empty(), m, 0, 0),
        Ok(rel) => {
            let sp = join(source_root, rel);
            let op = join(output_root, rel);
            match inspection(sp, source_root, source) {
                Err(m) => failure(item_rel, op, m, 0, 0),
                Ok(s) => if item_status != "complete"@ {
                    unvalidated(item_rel, op, item_status, item_message, s.width, s.height)
                } else {
                    match inspection(op, output_root, output) {
                        Ok(o) => verdict(
                            item_rel,
                            op,
                            s,
                            o,
                            alpha_rule(s, o, source, output),
                            s.relative_path == o.relative_path && s.extension == o.extension,
                            item_message + worker_ok_suffix(),
                            "FLUX output failed structural validation"@,
                        ),
                        Err(m) => failure(item_rel, op, m, s.width, s.height),
                    }
                },
            }
        },
    }
}

fn text_eq(a: &String, lit: &str) -> (r: bool)
    ensures
        r == (a@ == lit@),
{
    let x = chars_of(a.as_str());
    let y = chars_of(lit);
    chars_eq(&x, &y)
}

fn strings_eq(a: &String, b: &String) -> (r: bool)
    ensures
        r == (a@ == b@),
{
    let x = chars_of(a.as_str());
    let y = chars_of(b.as_str());
    chars_eq(&x, &y)
}

fn make_failure(rel: &String, out: &String, message: String, sw: u32, sh: u32) -> (r: ProcessResult)
    ensures
        r@ == failure(rel@, out@, message@, sw, sh),
{
    ProcessResult {
        relative_path: rel.clone(),
        output_path: out.clone(),
        status: "failed".to_owned(),
        valid: false,
        message,
        source_width: sw,
        source_height: sh,
        output_width: None,
        output_height: None,
        alpha_preserved: false,
    }
}

fn make_verdict(
    rel: &String,
    out: &String,
    s: &AssetInfo,
    o: &AssetInfo,
    alpha_ok: bool,
    name_ok: bool,
    ok_message: String,
    fail_message: &str,
) -> (r: ProcessResult)
    ensures
        r@ == verdict(rel@, out@, s@, o@, alpha_ok, name_ok, ok_message@, fail_message@),
{
    let valid = s.width == o.width && s.height == o.height && alpha_ok && name_ok;
    ProcessResult {
        relative_path: rel.clone(),
        output_path: out.clone(),
        status: if valid {
            "complete".to_owned()
        } else {
            "failed".to_owned()
        },
        valid,
        message: if valid {
            ok_message
        } else {
            fail_message.to_owned()
        },
        source_width: s.width,
        source_height: s.height,
        output_width: Some(o.width),
        output_height: Some(o.height),
        alpha_preserved: alpha_ok,
    }
}

fn joined(root: &str, rel: &String) -> (r: String)
    ensures
        r@ == join(root@, rel@),
{
    let a = chars_of(root);
    let b = chars_of(rel.as_str());
    string_of(&join_exec(&a, &b))
}

/// Validates one entry of a worker's batch response against the files on
/// disk: the entry's path must be safe, its source must inspect, a
/// completed entry's output must inspect to the same canvas, relative path
/// and extension, and a PNG source's transparency must be kept.
pub fn validated_worker_result(
    source_root: &str,
    output_root: &str,
    item: WorkerItem,
    source: &FileRead,
    output: &FileRead,
) -> (r: ProcessResult)
    ensures
        r@ == worker_verdict(
            source_root@,
            output_root@,
            item.relative_path@,
            item.status@,
            item.message@,
            *source,
            *output,
        ),
{
    let relative = match safe_relative(item.relative_path.as_str()) {
        Ok(v) => v,
        Err(message) => {
            return make_failure(&item.relative_path, &String::new(), message, 0, 0);
        },
    };
    let source_path = joined(source_root, &relative);
    let output_path = joined(output_root, &relative);
    let source_info = match inspect(source_path.as_str(), source_root, source) {
        Ok(v) => v,
        Err(message) => {
            return make_failure(&item.relative_path, &output_path, message, 0, 0);
        },
    };
    if !text_eq(&item.status, "complete") {
        return ProcessResult {
            relative_path: item.relative_path,
            output_path,
            status: item.status,
            valid: false,
            message: item.message,
            source_width: source_info.width,
            source_height: source_info.height,
            output_width: None,
            output_height: None,
            alpha_preserved: false,
        };
    }
    match inspect(output_path.as_str(), output_root, output) {
        Ok(output_info) => {
            let alpha_ok = !text_eq(&source_info.extension, "png") || alpha_matches(
                source,
                output,
                source_info.has_alpha,
                output_info.has_alpha,
            );
            let name_ok = strings_eq(&source_info.relative_path, &output_info.relative_path)
                && strings_eq(&source_info.extension, &output_info.extension);
            let mut ok_message = item.message.clone();
            ok_message.append("; exact size, path, name, extension, and pixel alpha validated");
            make_verdict(
                &item.relative_path,
                &output_path,
                &source_info,
                &output_info,
                alpha_ok,
                name_ok,
                ok_message,
                "FLUX output failed structural validation",
            )
        },
        Err(message) => make_failure(
            &item.relative_path,
            &output_path,
            message,
            source_info.width,
            source_info.height,
        ),
    }
}

/// The refusal of an output folder that is the source folder or lies
/// inside it, and of an output path inside the source folder.
pub open spec fn separate_roots_error() -> Seq<char> {
    "Output folder must be separate from and outside the source folder"@
}

/// `path` names the source folder or something inside it, whether only `/`
/// separates components or a backslash does too, as on Windows.
pub open spec fn inside_source(path: Seq<char>, source_root: Seq<char>) -> bool {
    starts_with(path, source_root) || starts_with(
        forward_slashes(path),
        forward_slashes(source_root),
    )
}

/// The output folder is not the source folder and does not lie inside it,
/// on either reading of the separators.
pub open spec fn roots_separate(source_root: Seq<char>, output_root: Seq<char>) -> bool {
    &&& !same_path(source_root, output_root)
    &&& !inside_source(output_root, source_root)
}

/// The output folder must differ from the source folder and must not lie
/// inside it. An output folder that holds the source folder is accepted;
/// `item_target` then refuses each asset whose output would land inside
/// the source folder.
pub fn check_separate_roots(source_root: &str, output_root: &str) -> (r: Result<(), String>)
    ensures
        r is Ok <==> roots_separate(source_root@, output_root@),
        r matches Err(e) ==> e@ == separate_roots_error(),
{
    let s = chars_of(source_root);
    let o = chars_of(output_root);
    let fs = forward_slashes_exec(&s);
    let fo = forward_slashes_exec(&o);
    if same_path_exec(&s, &o) || starts_with_exec(&o, &s) || starts_with_exec(&fo, &fs) {
        return Err("Output folder must be separate from and outside the source folder".to_owned());
    }
    Ok(())
}

/// Where one requested asset is read from and written to.
pub struct ItemTarget {
    pub relative_path: String,
    pub source_path: String,
    pub output_path: String,
}

/// Resolves a requested relative path against both roots, or reports the
/// failure when the path is not safe or its output would lie inside the
/// source folder.
pub fn item_target(source_root: &str, output_root: &str, relative_path: String) -> (r: Result<
    ItemTarget,
    ProcessResult,
>)
    ensures
        match safe_relative_spec(relative_path@) {
            Err(m) => r matches Err(f) && f@ == failure(relative_path@, Seq::empty(), m, 0, 0),
            Ok(rel) => if inside_source(join(output_root@, rel), source_root@) {
                r matches Err(f) && f@ == failure(
                    relative_path@,
                    join(output_root@, rel),
                    separate_roots_error(),
                    0,
                    0,
                )
            } else {
                r matches Ok(t) && t.relative_path@ == relative_path@ && t.source_path@ == join(
                    source_root@,
                    rel,
                ) && t.output_path@ == join(output_root@, rel)
            },
        },
        r matches Ok(t) ==> !inside_source(t.output_path@, source_root@),
{
    let relative = match safe_relative(relative_path.as_str()) {
        Ok(v) => v,
        Err(message) => {
            return Err(make_failure(&relative_path, &String::new(), message, 0, 0));
        },
    };
    let source_path = joined(source_root, &relative);
    let output_path = joined(output_root, &relative);
    let out = chars_of(output_path.as_str());
    let src = chars_of(source_root);
    if starts_with_exec(&out, &src) || starts_with_exec(
        &forward_slashes_exec(&out),
        &forward_slashes_exec(&src),
    ) {
        return Err(
            make_failure(
                &relative_path,
                &output_path,
                "Output folder must be separate from and outside the source folder".to_owned(),
                0,
                0,
            ),
        );
    }
    Ok(ItemTarget { relative_path, source_path, output_path })
}

/// The message of an asset skipped because its output exists.
pub open spec fn skipped_message() -> Seq<char> {
    "Output already exists; overwrite is disabled"@
}

/// Decides, once the source has been read, whether the asset may be copied:
/// an unreadable source fails, and an existing output is skipped unless
/// overwriting is enabled. `Ok` carries the source record and means the
/// copy may go ahead.
pub fn placeholder_source_step(
    target: &ItemTarget,
    source_root: &str,
    source: &FileRead,
    output_exists: bool,
    overwrite: bool,
) -> (r: Result<AssetInfo, ProcessResult>)
    ensures
        match inspection(target.source_path@, source_root@, *source) {
            Err(m) => r matches Err(f) && f@ == failure(
                target.relative_path@,
                target.output_path@,
                m,
                0,
                0,
            ),
            Ok(s) => if output_exists && !overwrite {
                r matches Err(f) && f@ == unvalidated(
                    target.relative_path@,
                    target.output_path@,
                    "skipped"@,
                    skipped_message(),
                    s.width,
                    s.height,
                )
            } else {
                r matches Ok(info) && info@ == s
            },
        },
{
    let info = match inspect(target.source_path.as_str(), source_root, source) {
        Ok(v) => v,
        Err(message) => {
            return Err(make_failure(&target.relative_path, &target.output_path, message, 0, 0));
        },
    };
    if output_exists && !overwrite {
        return Err(
            ProcessResult {
                relative_path: target.relative_path.clone(),
                output_path: target.output_path.clone(),
                status: "skipped".to_owned(),
                valid: false,
                message: "Output already exists; overwrite is disabled".to_owned(),
                source_width: info.width,
                source_height: info.height,
                output_width: None,
                output_height: None,
                alpha_preserved: false,
            },
        );
    }
    Ok(info)
}

/// The result for an asset whose copy could not be written.
pub fn copy_failure(target: &ItemTarget, source_info: &AssetInfo, message: String) -> (r:
    ProcessResult)
    ensures
        r@ == failure(
            target.relative_path@,
            target.output_path@,
            message@,
            source_info.width,
            source_info.height,
        ),
{
    make_failure(
        &target.relative_path,
        &target.output_path,
        message,
        source_info.width,
        source_info.height,
    )
}

/// What the copying pass reports once its output has been written.
pub open spec fn placeholder_verdict(
    target_rel: Seq<char>,
    target_out: Seq<char>,
    s: AssetView,
    output_root: Seq<char>,
    source: FileRead,
    output: FileRead,
) -> ResultView {
    match inspection(target_out, output_root, output) {
        Ok(o) => verdict(
            target_rel,
            target_out,
            s,
            o,
            alpha_rule(s, o, source, output),
            s.relative_path == o.relative_path,
            "Exact size, path, name, extension, and pixel alpha validated"@,
            "Output failed structural validation"@,
        ),
        Err(m) => failure(target_rel, target_out, m, s.width, s.height),
    }
}

/// Validates a copied asset against its source.
pub fn placeholder_result(
    target: &ItemTarget,
    source_info: &AssetInfo,
    output_root: &str,
    source: &FileRead,
    output: &FileRead,
) -> (r: ProcessResult)
    ensures
        r@ == placeholder_verdict(
            target.relative_path@,
            target.output_path@,
            source_info@,
            output_root@,
            *source,
            *output,
        ),
{
    match inspect(target.output_path.as_str(), output_root, output) {
        Ok(info) => {
            let alpha_ok = !text_eq(&source_info.extension, "png") || alpha_matches(
                source,
                output,
                source_info.has_alpha,
                info.has_alpha,
            );
            let name_ok = strings_eq(&source_info.relative_path, &info.relative_path);
            make_verdict(
                &target.relative_path,
                &target.output_path,
                source_info,
                &info,
                alpha_ok,
                name_ok,
                "Exact size, path, name, extension, and pixel alpha validated".to_owned(),
                "Output failed structural validation",
            )
        },
        Err(message) => make_failure(
            &target.relative_path,
            &target.output_path,
            message,
            source_info.width,
            source_info.height,
        ),
    }
}

/// One entry of a worker's response with the files that validating it
/// reads: the source, and the output (consulted only for a completed
/// entry).
pub struct WorkerEntry {
    pub item: WorkerItem,
    pub source: FileRead,
    pub output: FileRead,
}

/// The verdict on one entry of a worker's response.
pub open spec fn entry_verdict(source_root: Seq<char>, output_root: Seq<char>, e: WorkerEntry) -> ResultView {
    worker_verdict(
        source_root,
        output_root,
        e.item.relative_path@,
        e.item.status@,
        e.item.message@,
        e.source,
        e.output,
    )
}

/// Validates every entry of a worker's response, one result per entry in
/// the same order (see `validated_worker_result`).
pub fn validated_batch(source_root: &str, output_root: &str, entries: &Vec<WorkerEntry>) -> (r: Vec<
    ProcessResult,
>)
    ensures
        r@.len() == entries@.len(),
        forall|i: int|
            0 <= i < entries@.len() ==> (#[trigger] r@[i])@ == entry_verdict(
                source_root@,
                output_root@,
                entries@[i],
            ),
{
    let mut r: Vec<ProcessResult> = Vec::new();
    for i in 0..entries.len()
        invariant
            r@.len() == i,
            forall|j: int|
                0 <= j < i ==> (#[trigger] r@[j])@ == entry_verdict(
                    source_root@,
                    output_root@,
                    entries@[j],
                ),
    {
        let e = &entries[i];
        let item = WorkerItem {
            relative_path: e.item.relative_path.clone(),
            status: e.item.status.clone(),
            message: e.item.message.clone(),
        };
        let v = validated_worker_result(source_root, output_root, item, &e.source, &e.output);
        r.push(v);
    }
    r
}

/// What the copying pass met for one requested asset: the source as read,
/// whether the output already existed, and the copy's outcome, that is the
/// error or the output as read back. `source` is consulted only for an
/// accepted path and `copied` only when the copy went ahead.
pub struct CopyRecord {
    pub relative_path: String,
    pub source: FileRead,
    pub output_exists: bool,
    pub copied: Result<FileRead, String>,
}

/// What the copying pass reports for one requested asset.
pub open spec fn copy_verdict(
    source_root: Seq<char>,
    output_root: Seq<char>,
    overwrite: bool,
    c: CopyRecord,
) -> ResultView {
    let value = c.relative_path@;
    match safe_relative_spec(value) {
        Err(m) => failure(value, Seq::empty(), m, 0, 0),
        Ok(rel) => {
            let out = join(output_root, rel);
            if inside_source(out, source_root) {
                failure(value, out, separate_roots_error(), 0, 0)
            } else {
                match inspection(join(source_root, rel), source_root, c.source) {
                    Err(m) => failure(value, out, m, 0, 0),
                    Ok(s) => if c.output_exists && !overwrite {
                        unvalidated(value, out, "skipped"@, skipped_message(), s.width, s.height)
                    } else {
                        match c.copied {
                            Err(m) => failure(value, out, m@, s.width, s.height),
                            Ok(o) => placeholder_verdict(value, out, s, output_root, c.source, o),
                        }
                    },
                }
            }
        },
    }
}

fn copy_result(source_root: &str, output_root: &str, overwrite: bool, c: &CopyRecord) -> (r:
    ProcessResult)
    ensures
        r@ == copy_verdict(source_root@, output_root@, overwrite, *c),
{
    let target = match item_target(source_root, output_root, c.relative_path.clone()) {
        Ok(t) => t,
        Err(f) => {
            return f;
        },
    };
    let info = match placeholder_source_step(&target, source_root, &c.source, c.output_exists, overwrite) {
        Ok(info) => info,
        Err(f) => {
            return f;
        },
    };
    match &c.copied {
        Err(m) => copy_failure(&target, &info, m.clone()),
        Ok(o) => placeholder_result(&target, &info, output_root, &c.source, o),
    }
}

/// The results of the copying pass, one per requested asset in the order
/// requested (see `copy_verdict`).
pub fn copy_pass_results(
    source_root: &str,
    output_root: &str,
    overwrite: bool,
    records: &Vec<CopyRecord>,
) -> (r: Vec<ProcessResult>)
    ensures
        r@.len() == records@.len(),
        forall|i: int|
            0 <= i < records@.len() ==> (#[trigger] r@[i])@ == copy_verdict(
                source_root@,
                output_root@,
                overwrite,
                records@[i],
            ),
{
    let mut r: Vec<ProcessResult> = Vec::new();
    for i in 0..records.len()
        invariant
            r@.len() == i,
            forall|j: int|
                0 <= j < i ==> (#[trigger] r@[j])@ == copy_verdict(
                    source_root@,
                    output_root@,
                    overwrite,
                    records@[j],
                ),
    {
        let v = copy_result(source_root, output_root, overwrite, &records[i]);
        r.push(v);
    }
    r
}

} // verus!
