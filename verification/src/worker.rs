//! The Python worker that runs FLUX: which interpreter and script launch
//! it, how its exit is read, and the checks on a batch request.
use vstd::prelude::*;
use crate::format::{decimal_exec, decimal_text};
use crate::paths::{join, join_exec, parent, parent_exec};
use crate::safety::{result_view, safe_relative, safe_relative_spec};
use crate::text::{chars_of, concat_chars, has_text, lower, lower_chars, string_of, trim, trim_exec};
use crate::validation::{check_separate_roots, roots_separate, separate_roots_error};

verus! {

/// A path built by joining names onto a root, one after another.
pub open spec fn join_all(root: Seq<char>, names: Seq<Seq<char>>) -> Seq<char>
    decreases names.len(),
{
    if names.len() == 0 {
        root
    } else {
        join(join_all(root, names.drop_last()), names.last())
    }
}

fn join_names(root: &[char], names: &Vec<&str>) -> (r: Vec<char>)
    ensures
        r@ == join_all(root@, Seq::new(names@.len(), |i: int| names@[i]@)),
{
    let ghost ns = Seq::new(names@.len(), |i: int| names@[i]@);
    let mut r: Vec<char> = Vec::new();
    concat_chars(&mut r, root);
    for i in 0..names.len()
        invariant
            ns == Seq::new(names@.len(), |i: int| names@[i]@),
            r@ == join_all(root@, ns.take(i as int)),
    {
        assert(ns.take(i + 1).drop_last() =~= ns.take(i as int));
        assert(ns.take(i + 1).last() == names@[i as int]@);
        r = join_exec(&r, &chars_of(names[i]));
    }
    assert(ns.take(names@.len() as int) =~= ns);
    r
}

/// The FLUX interpreter of a portable installation.
pub open spec fn portable_ai_python(root: Seq<char>) -> Seq<char> {
    join_all(root, seq!["runtime"@, "diffsynth"@, "python"@, "python.exe"@])
}

/// The plain interpreter of a portable installation.
pub open spec fn portable_python(root: Seq<char>) -> Seq<char> {
    join_all(root, seq!["runtime"@, "python"@, "python.exe"@])
}

/// The FLUX interpreter of a development checkout.
pub open spec fn dev_ai_python(dreamy: Seq<char>) -> Seq<char> {
    join_all(dreamy, seq!["external"@, "DiffSynth-Studio"@, ".venv"@, "Scripts"@, "python.exe"@])
}

/// The plain interpreter of a development checkout.
pub open spec fn dev_python(dreamy: Seq<char>) -> Seq<char> {
    join_all(dreamy, seq![".venv"@, "Scripts"@, "python.exe"@])
}

/// The interpreter that runs the worker: the bundled ones of a portable
/// installation, or the development environments beside the studio.
pub open spec fn worker_python_spec(root: Seq<char>, portable: bool, ai_runtime: bool) -> Result<
    Seq<char>,
    Seq<char>,
> {
    if portable && ai_runtime {
        Ok(portable_ai_python(root))
    } else if portable {
        Ok(portable_python(root))
    } else {
        match parent(root) {
            None => Err("Cannot locate Dreamy runtime root"@),
            Some(d) => if ai_runtime {
                Ok(dev_ai_python(d))
            } else {
                Ok(dev_python(d))
            },
        }
    }
}

/// The interpreter that runs the worker (see `worker_python_spec`).
pub fn worker_python(studio_root: &str, portable: bool, ai_runtime: bool) -> (r: Result<
    String,
    String,
>)
    ensures
        result_view(r) == worker_python_spec(studio_root@, portable, ai_runtime),
{
    let root = chars_of(studio_root);
    if portable && ai_runtime {
        let names = vec!["runtime", "diffsynth", "python", "python.exe"];
        let r = join_names(&root, &names);
        assert(Seq::new(names@.len(), |i: int| names@[i]@) =~= seq![
            "runtime"@,
            "diffsynth"@,
            "python"@,
            "python.exe"@,
        ]);
        return Ok(string_of(&r));
    }
    if portable {
        let names = vec!["runtime", "python", "python.exe"];
        let r = join_names(&root, &names);
        assert(Seq::new(names@.len(), |i: int| names@[i]@) =~= seq![
            "runtime"@,
            "python"@,
            "python.exe"@,
        ]);
        return Ok(string_of(&r));
    }
    let dreamy = match parent_exec(&root) {
        Some(d) => d,
        None => {
            return Err("Cannot locate Dreamy runtime root".to_owned());
        },
    };
    if ai_runtime {
        let names = vec!["external", "DiffSynth-Studio", ".venv", "Scripts", "python.exe"];
        let r = join_names(&dreamy, &names);
        assert(Seq::new(names@.len(), |i: int| names@[i]@) =~= seq![
            "external"@,
            "DiffSynth-Studio"@,
            ".venv"@,
            "Scripts"@,
            "python.exe"@,
        ]);
        Ok(string_of(&r))
    } else {
        let names = vec![".venv", "Scripts", "python.exe"];
        let r = join_names(&dreamy, &names);
        assert(Seq::new(names@.len(), |i: int| names@[i]@) =~= seq![
            ".venv"@,
            "Scripts"@,
            "python.exe"@,
        ]);
        Ok(string_of(&r))
    }
}

/// The worker script inside the studio.
pub fn worker_script(studio_root: &str) -> (r: String)
    ensures
        r@ == join_all(studio_root@, seq!["tools"@, "ui_studio_worker.py"@]),
{
    let names = vec!["tools", "ui_studio_worker.py"];
    let r = join_names(&chars_of(studio_root), &names);
    assert(Seq::new(names@.len(), |i: int| names@[i]@) =~= seq!["tools"@, "ui_studio_worker.py"@]);
    string_of(&r)
}

/// The module path given to the bundled interpreter of the AI runtime.
pub fn runtime_python_path(studio_root: &str) -> (r: String)
    ensures
        r@ == join_all(studio_root@, seq!["runtime"@, "diffsynth"@]),
{
    let names = vec!["runtime", "diffsynth"];
    let r = join_names(&chars_of(studio_root), &names);
    assert(Seq::new(names@.len(), |i: int| names@[i]@) =~= seq!["runtime"@, "diffsynth"@]);
    string_of(&r)
}

fn prefixed(a: &str, b: &str) -> (r: String)
    ensures
        r@ == a@ + b@,
{
    let mut m = chars_of(a);
    concat_chars(&mut m, &chars_of(b));
    string_of(&m)
}

/// The worker can start only when its interpreter and script both exist.
pub fn check_worker_files(python: &str, python_is_file: bool, worker: &str, worker_is_file: bool) -> (r:
    Result<(), String>)
    ensures
        r is Ok <==> python_is_file && worker_is_file,
        r matches Err(e) ==> if !python_is_file {
            e@ == "Python runtime is missing: "@ + python@
        } else {
            e@ == "UI Studio worker is missing: "@ + worker@
        },
{
    if !python_is_file {
        return Err(prefixed("Python runtime is missing: ", python));
    }
    if !worker_is_file {
        return Err(prefixed("UI Studio worker is missing: ", worker));
    }
    Ok(())
}

/// What a finished worker run answers: its trimmed output on success; on
/// failure its trimmed error output, or a fixed message when that is blank.
pub open spec fn worker_output_spec(success: bool, stdout: Seq<char>, stderr: Seq<char>) -> Result<
    Seq<char>,
    Seq<char>,
> {
    if !success {
        if trim(stderr).len() == 0 {
            Err("UI Studio worker failed without an error message"@)
        } else {
            Err(trim(stderr))
        }
    } else {
        Ok(trim(stdout))
    }
}

/// The worker's answer from its exit status and output (see
/// `worker_output_spec`).
pub fn worker_output(success: bool, stdout: &str, stderr: &str) -> (r: Result<String, String>)
    ensures
        result_view(r) == worker_output_spec(success, stdout@, stderr@),
{
    if !success {
        let e = trim_exec(&chars_of(stderr));
        if e.len() == 0 {
            return Err("UI Studio worker failed without an error message".to_owned());
        }
        return Err(string_of(&e));
    }
    Ok(string_of(&trim_exec(&chars_of(stdout))))
}

/// The first refusal among the requested paths.
pub open spec fn first_unsafe(paths: Seq<String>) -> Option<Seq<char>>
    decreases paths.len(),
{
    if paths.len() == 0 {
        None
    } else {
        match safe_relative_spec(paths[0]@) {
            Err(m) => Some(m),
            Ok(_) => first_unsafe(paths.drop_first()),
        }
    }
}

/// The checks on a batch's folders and paths: the folders must be separate;
/// an empty batch needs nothing more (`Ok(false)`); otherwise every path
/// must be safe (`Ok(true)`).
pub fn check_batch_paths(source_root: &str, output_root: &str, relative_paths: &Vec<String>) -> (r:
    Result<bool, String>)
    ensures
        if !roots_separate(source_root@, output_root@) {
            r matches Err(e) && e@ == separate_roots_error()
        } else if relative_paths@.len() == 0 {
            r == Ok::<bool, String>(false)
        } else {
            match first_unsafe(relative_paths@) {
                Some(m) => r matches Err(e) && e@ == m,
                None => r == Ok::<bool, String>(true),
            }
        },
{
    check_separate_roots(source_root, output_root)?;
    if relative_paths.len() == 0 {
        return Ok(false);
    }
    let ghost ps = relative_paths@;
    assert(ps.skip(0) =~= ps);
    for i in 0..relative_paths.len()
        invariant
            ps == relative_paths@,
            ps.len() > 0,
            roots_separate(source_root@, output_root@),
            first_unsafe(ps) == first_unsafe(ps.skip(i as int)),
    {
        assert(ps.skip(i as int)[0] == ps[i as int]);
        assert(ps.skip(i as int).drop_first() =~= ps.skip(i + 1));
        match safe_relative(relative_paths[i].as_str()) {
            Err(m) => {
                return Err(m);
            },
            Ok(_) => {},
        }
    }
    assert(ps.skip(relative_paths@.len() as int) =~= Seq::<String>::empty());
    Ok(true)
}

/// The inference step counts a batch may use.
pub open spec fn steps_allowed(steps: u32) -> bool {
    steps == 4 || steps == 8 || steps == 12
}

/// The working resolutions a batch may use.
pub open spec fn resolution_allowed(px: u32) -> bool {
    px == 256 || px == 512 || px == 768 || px == 1024 || px == 2048
}

/// The integer settings of a FLUX batch: 4, 8 or 12 inference steps and a
/// working resolution of 256, 512, 768, 1024 or 2048 pixels.
pub fn check_batch_settings(inference_steps: u32, working_resolution: u32) -> (r: Result<(), String>)
    ensures
        r is Ok <==> steps_allowed(inference_steps) && resolution_allowed(working_resolution),
        r matches Err(e) ==> if !steps_allowed(inference_steps) {
            e@ == "Inference steps must be 4, 8, or 12"@
        } else {
            e@ == "FLUX working resolution must be 256, 512, 768, 1024, or 2048"@
        },
{
    if !(inference_steps == 4 || inference_steps == 8 || inference_steps == 12) {
        return Err("Inference steps must be 4, 8, or 12".to_owned());
    }
    if !(working_resolution == 256 || working_resolution == 512 || working_resolution == 768
        || working_resolution == 1024 || working_resolution == 2048) {
        return Err("FLUX working resolution must be 256, 512, 768, 1024, or 2048".to_owned());
    }
    Ok(())
}

/// The file name of a batch's request manifest in the temporary folder.
pub open spec fn manifest_name_spec(label: Seq<char>, process_id: u32, nonce: u128) -> Seq<char> {
    "ui-studio-"@ + lower(label) + "-"@ + decimal_text(process_id as nat) + "-"@ + decimal_text(
        nonce as nat,
    ) + ".json"@
}

/// The file name of a batch's request manifest (see `manifest_name_spec`).
pub fn batch_manifest_name(label: &str, process_id: u32, nonce: u128) -> (r: String)
    ensures
        r@ == manifest_name_spec(label@, process_id, nonce),
{
    let mut m = chars_of("ui-studio-");
    concat_chars(&mut m, &lower_chars(&chars_of(label)));
    concat_chars(&mut m, &chars_of("-"));
    concat_chars(&mut m, &decimal_exec(process_id as u128));
    concat_chars(&mut m, &chars_of("-"));
    concat_chars(&mut m, &decimal_exec(nonce));
    concat_chars(&mut m, &chars_of(".json"));
    string_of(&m)
}

} // verus!
