//! The downloadable AI resources: where they are installed, what a request
//! for one resource downloads, how an interrupted download resumes and a
//! failed one is retried, the checks on a runtime archive and the steps of
//! swapping it into place, and the settings scope of a portable
//! installation.
use vstd::prelude::*;
use crate::format::{hex16, hex16_exec};
use crate::imaging::forward_slashes;
use crate::paths::{parent, parent_exec, same_path, same_path_exec, starts_with, starts_with_exec};
use crate::safety::{result_view, safe_resource_relative, safe_resource_relative_spec};
use crate::system::{find, find_exec, lemma_find_in_range, parse_u64, parse_u64_exec};
use crate::text::{
    chars_eq, chars_of, concat_chars, lines, lines_exec, lower, lower_chars, string_of, strip_end,
    strip_end_exec, sub_chars, trim, trim_exec, views,
};

verus! {

/// Whether the studio runs as a portable installation: the resource
/// manifest is present and the executable lives in the studio root.
pub open spec fn portable_spec(
    studio_root: Seq<char>,
    manifest_is_file: bool,
    executable_directory: Option<Seq<char>>,
) -> bool {
    manifest_is_file && match executable_directory {
        Some(d) => same_path(d, studio_root),
        None => false,
    }
}

/// Whether the studio at `studio_root` runs as a portable installation
/// (see `portable_spec`).
pub fn is_portable(studio_root: &str, manifest_is_file: bool, executable_directory: Option<&str>) -> (r:
    bool)
    ensures
        r == portable_spec(
            studio_root@,
            manifest_is_file,
            match executable_directory {
                Some(d) => Some(d@),
                None => None,
            },
        ),
{
    if !manifest_is_file {
        return false;
    }
    match executable_directory {
        Some(d) => same_path_exec(&chars_of(d), &chars_of(studio_root)),
        None => false,
    }
}

/// Resources are installed beside a portable executable, and otherwise in
/// the folder above the studio (the studio itself when it has none).
pub open spec fn install_root_spec(studio_root: Seq<char>, portable: bool) -> Seq<char> {
    if portable {
        studio_root
    } else {
        match parent(studio_root) {
            Some(p) => p,
            None => studio_root,
        }
    }
}

/// The folder that resources are installed in (see `install_root_spec`).
pub fn resource_install_root(studio_root: &str, portable: bool) -> (r: String)
    ensures
        r@ == install_root_spec(studio_root@, portable),
{
    if portable {
        return studio_root.to_owned();
    }
    match parent_exec(&chars_of(studio_root)) {
        Some(p) => string_of(&p),
        None => studio_root.to_owned(),
    }
}

/// 64-bit FNV-1a over a byte string.
pub open spec fn fnv1a(bytes: Seq<u8>) -> u64
    decreases bytes.len(),
{
    if bytes.len() == 0 {
        14695981039346656037u64
    } else {
        (fnv1a(bytes.drop_last()) ^ (bytes.last() as u64)).wrapping_mul(1099511628211u64)
    }
}

/// The key under which settings are kept: shared by development runs, and
/// for a portable installation tied to the application version and to the
/// FNV-1a hash of its lower-cased folder's UTF-8 text.
pub open spec fn settings_scope_spec(root: Seq<char>, portable: bool, version: Seq<char>) -> Seq<
    char,
> {
    if !portable {
        "development"@
    } else {
        "portable-"@ + version + "-"@ + hex16(fnv1a(vstd::utf8::encode_utf8(lower(root))))
    }
}

/// The scope under which the front end keeps its settings (see
/// `settings_scope_spec`).
pub fn settings_scope(root: &str, portable: bool, version: &str) -> (r: String)
    ensures
        r@ == settings_scope_spec(root@, portable, version@),
{
    if !portable {
        return "development".to_owned();
    }
    let normalized = string_of(&lower_chars(&chars_of(root)));
    let bytes = normalized.as_str().as_bytes();
    let mut hash: u64 = 14695981039346656037u64;
    for i in 0..bytes.len()
        invariant
            hash == fnv1a(bytes@.take(i as int)),
    {
        assert(bytes@.take(i + 1).drop_last() =~= bytes@.take(i as int));
        hash = (hash ^ (bytes[i] as u64)).wrapping_mul(1099511628211u64);
    }
    assert(bytes@.take(bytes@.len() as int) =~= bytes@);
    let mut out = chars_of("portable-");
    concat_chars(&mut out, &chars_of(version));
    concat_chars(&mut out, &chars_of("-"));
    concat_chars(&mut out, &hex16_exec(hash));
    string_of(&out)
}

/// One download of a resource, as the manifest lists it.
pub struct ManifestDownload {
    pub url: String,
    pub destination: String,
    pub bytes: Option<u64>,
    pub sha256: Option<String>,
}

/// A runtime archive split into parts.
pub struct ManifestArchive {
    pub parts: Vec<String>,
    pub bytes: u64,
    pub sha256: String,
    pub destination: String,
}

/// One model file, fetched from a resource's base URL for a component.
pub struct ManifestFile {
    pub path: String,
    pub component: String,
    pub bytes: Option<u64>,
    pub sha256: Option<String>,
}

pub struct ManifestResource {
    pub id: String,
    pub base_url: Option<String>,
    pub destination: Option<String>,
    pub downloads: Vec<ManifestDownload>,
    pub files: Vec<ManifestFile>,
    pub archive: Option<ManifestArchive>,
}

pub struct ResourceManifest {
    pub resources: Vec<ManifestResource>,
}

/// One step of installing a resource, in order.
pub enum PlanStep {
    /// Fetch `url` into `destination` (relative to the install root) and
    /// check the declared size and digest.
    Download { url: String, destination: String, bytes: Option<u64>, sha256: Option<String> },
    /// Assemble and install the archive of the resource at this index.
    InstallArchive { resource: usize },
    /// Stop with this error.
    Fail { message: String },
}

pub enum StepView {
    Download {
        url: Seq<char>,
        destination: Seq<char>,
        bytes: Option<u64>,
        sha256: Option<Seq<char>>,
    },
    InstallArchive { resource: int },
    Fail { message: Seq<char> },
}

/// An optional text as a plain value.
pub open spec fn opt_text(o: Option<String>) -> Option<Seq<char>> {
    match o {
        Some(s) => Some(s@),
        None => None,
    }
}

/// A plan step as a plain value.
pub open spec fn step_view(s: PlanStep) -> StepView {
    match s {
        PlanStep::Download { url, destination, bytes, sha256 } => StepView::Download {
            url: url@,
            destination: destination@,
            bytes,
            sha256: opt_text(sha256),
        },
        PlanStep::InstallArchive { resource } => StepView::InstallArchive { resource: resource as int },
        PlanStep::Fail { message } => StepView::Fail { message: message@ },
    }
}

/// Plan steps as plain values.
pub open spec fn step_views(s: Seq<PlanStep>) -> Seq<StepView> {
    Seq::new(s.len(), |i: int| step_view(s[i]))
}

/// Index of the first resource with the given id.
pub open spec fn find_resource(rs: Seq<ManifestResource>, id: Seq<char>, from: int) -> Option<int>
    decreases rs.len() - from,
{
    if from < 0 || from >= rs.len() {
        None
    } else if rs[from].id@ == id {
        Some(from)
    } else {
        find_resource(rs, id, from + 1)
    }
}

/// The step of one listed download: fetch it, or fail when its destination
/// is not a safe relative path.
pub open spec fn download_step(d: ManifestDownload) -> StepView {
    match safe_resource_relative_spec(d.destination@) {
        Err(m) => StepView::Fail { message: m },
        Ok(rel) => StepView::Download {
            url: d.url@,
            destination: rel,
            bytes: d.bytes,
            sha256: opt_text(d.sha256),
        },
    }
}

/// The steps of the resource itself: its downloads, then its archive.
pub open spec fn own_steps(r: ManifestResource, index: int) -> Seq<StepView> {
    let ds = r.downloads@;
    Seq::new(ds.len(), |k: int| download_step(ds[k])) + if r.archive is Some {
        seq![StepView::InstallArchive { resource: index }]
    } else {
        Seq::empty()
    }
}

/// The step of one model file: fetch it from below `base_url` into
/// `base_destination`, or fail when that place is not a safe relative path.
pub open spec fn file_step(base_url: Seq<char>, base_destination: Seq<char>, f: ManifestFile) -> StepView {
    match safe_resource_relative_spec(base_destination + "/"@ + f.path@) {
        Err(m) => StepView::Fail { message: m },
        Ok(rel) => StepView::Download {
            url: base_url + forward_slashes(f.path@) + "?download=true"@,
            destination: rel,
            bytes: f.bytes,
            sha256: opt_text(f.sha256),
        },
    }
}

/// The steps for the files of one resource that belong to component `id`.
pub open spec fn matching_steps(
    fs: Seq<ManifestFile>,
    id: Seq<char>,
    base_url: Seq<char>,
    base_destination: Seq<char>,
) -> Seq<StepView>
    decreases fs.len(),
{
    if fs.len() == 0 {
        Seq::empty()
    } else {
        let init = matching_steps(fs.drop_last(), id, base_url, base_destination);
        if fs.last().component@ == id {
            init.push(file_step(base_url, base_destination, fs.last()))
        } else {
            init
        }
    }
}

/// Some file belongs to component `id`.
pub open spec fn has_component(fs: Seq<ManifestFile>, id: Seq<char>) -> bool {
    exists|k: int| 0 <= k < fs.len() && (#[trigger] fs[k]).component@ == id
}

/// The steps one resource contributes for files of component `id`.
pub open spec fn component_steps(r: ManifestResource, id: Seq<char>) -> Seq<StepView> {
    if !has_component(r.files@, id) {
        Seq::empty()
    } else {
        match (r.base_url, r.destination) {
            (None, _) => seq![StepView::Fail { message: id + " has no download base URL"@ }],
            (Some(_), None) => seq![StepView::Fail { message: id + " has no destination"@ }],
            (Some(u), Some(d)) => matching_steps(r.files@, id, u@, d@),
        }
    }
}

/// The steps that all resources contribute for files of component `id`,
/// in manifest order.
pub open spec fn all_component_steps(rs: Seq<ManifestResource>, id: Seq<char>) -> Seq<StepView>
    decreases rs.len(),
{
    if rs.len() == 0 {
        Seq::empty()
    } else {
        all_component_steps(rs.drop_last(), id) + component_steps(rs.last(), id)
    }
}

/// The steps up to and including the first failure.
pub open spec fn until_fail(s: Seq<StepView>) -> Seq<StepView>
    decreases s.len(),
{
    if s.len() == 0 {
        Seq::empty()
    } else if s[0] is Fail {
        seq![s[0]]
    } else {
        seq![s[0]] + until_fail(s.drop_first())
    }
}

/// What installing resource `id` does: the downloads and archive of the
/// first resource with that id, then every file of component `id` across
/// all resources, stopping at the first step that cannot be taken.
pub open spec fn install_plan(rs: Seq<ManifestResource>, id: Seq<char>) -> Seq<StepView> {
    let own = match find_resource(rs, id, 0) {
        Some(i) => own_steps(rs[i], i),
        None => Seq::empty(),
    };
    until_fail(own + all_component_steps(rs, id))
}

fn clone_opt(o: &Option<String>) -> (r: Option<String>)
    ensures
        opt_text(r) == opt_text(*o),
{
    match o {
        Some(s) => Some(s.clone()),
        None => None,
    }
}

fn download_step_exec(d: &ManifestDownload) -> (r: PlanStep)
    ensures
        step_view(r) == download_step(*d),
{
    match safe_resource_relative(d.destination.as_str()) {
        Err(message) => PlanStep::Fail { message },
        Ok(destination) => PlanStep::Download {
            url: d.url.clone(),
            destination,
            bytes: d.bytes,
            sha256: clone_opt(&d.sha256),
        },
    }
}

fn push_step(out: &mut Vec<PlanStep>, s: PlanStep)
    ensures
        step_views(final(out)@) == step_views(old(out)@).push(step_view(s)),
{
    let ghost before = step_views(out@);
    let ghost v = step_view(s);
    out.push(s);
    assert(step_views(out@) =~= before.push(v));
}

fn file_step_exec(base_url: &String, base_destination: &String, f: &ManifestFile) -> (r: PlanStep)
    ensures
        step_view(r) == file_step(base_url@, base_destination@, *f),
{
    let mut dest = chars_of(base_destination.as_str());
    concat_chars(&mut dest, &chars_of("/"));
    concat_chars(&mut dest, &chars_of(f.path.as_str()));
    let dest = string_of(&dest);
    match safe_resource_relative(dest.as_str()) {
        Err(message) => PlanStep::Fail { message },
        Ok(destination) => {
            let mut url = chars_of(base_url.as_str());
            let path = chars_of(f.path.as_str());
            let mut slashed: Vec<char> = Vec::new();
            for i in 0..path.len()
                invariant
                    slashed@ == forward_slashes(path@).take(i as int),
            {
                if path[i] == '\\' {
                    slashed.push('/');
                } else {
                    slashed.push(path[i]);
                }
                assert(slashed@ =~= forward_slashes(path@).take(i + 1));
            }
            assert(slashed@ =~= forward_slashes(path@));
            concat_chars(&mut url, &slashed);
            concat_chars(&mut url, &chars_of("?download=true"));
            PlanStep::Download {
                url: string_of(&url),
                destination,
                bytes: f.bytes,
                sha256: clone_opt(&f.sha256),
            }
        },
    }
}

fn message_for(id: &str, tail: &str) -> (r: String)
    ensures
        r@ == id@ + tail@,
{
    let mut m = chars_of(id);
    concat_chars(&mut m, &chars_of(tail));
    string_of(&m)
}

fn component_steps_exec(out: &mut Vec<PlanStep>, r: &ManifestResource, id: &str)
    ensures
        step_views(final(out)@) == step_views(old(out)@) + component_steps(*r, id@),
{
    let fs = &r.files;
    let idc = chars_of(id);
    let mut found = false;
    for k in 0..fs.len()
        invariant
            idc@ == id@,
            found == exists|j: int| 0 <= j < k && (#[trigger] fs@[j]).component@ == id@,
    {
        if chars_eq(&chars_of(fs[k].component.as_str()), &idc) {
            found = true;
        }
    }
    if !found {
        assert(step_views(out@) + Seq::<StepView>::empty() =~= step_views(out@));
        return;
    }
    let ghost start = step_views(out@);
    match (&r.base_url, &r.destination) {
        (None, _) => {
            push_step(out, PlanStep::Fail { message: message_for(id, " has no download base URL") });
            assert(step_views(out@) =~= start + component_steps(*r, id@));
        },
        (Some(_), None) => {
            push_step(out, PlanStep::Fail { message: message_for(id, " has no destination") });
            assert(step_views(out@) =~= start + component_steps(*r, id@));
        },
        (Some(u), Some(d)) => {
            for k in 0..fs.len()
                invariant
                    idc@ == id@,
                    step_views(out@) == start + matching_steps(fs@.take(k as int), id@, u@, d@),
            {
                assert(fs@.take(k + 1).drop_last() =~= fs@.take(k as int));
                if chars_eq(&chars_of(fs[k].component.as_str()), &idc) {
                    push_step(out, file_step_exec(u, d, &fs[k]));
                    assert(step_views(out@) =~= start + matching_steps(
                        fs@.take(k + 1),
                        id@,
                        u@,
                        d@,
                    ));
                }
            }
            assert(fs@.take(fs@.len() as int) =~= fs@);
        },
    }
}

/// The steps of installing resource `id` from the manifest (see
/// `install_plan`).
pub fn plan_install(manifest: &ResourceManifest, id: &str) -> (r: Vec<PlanStep>)
    ensures
        step_views(r@) == install_plan(manifest.resources@, id@),
{
    let rs = &manifest.resources;
    let idc = chars_of(id);
    let mut all: Vec<PlanStep> = Vec::new();
    // The first resource with this id.
    let mut found: Option<usize> = None;
    let mut i: usize = 0;
    while i < rs.len()
        invariant
            idc@ == id@,
            i <= rs@.len(),
            found is None ==> find_resource(rs@, id@, 0) == find_resource(rs@, id@, i as int),
            found matches Some(k) ==> find_resource(rs@, id@, 0) == Some(k as int) && k < rs@.len(),
        decreases rs.len() - i,
    {
        if found.is_none() && chars_eq(&chars_of(rs[i].id.as_str()), &idc) {
            found = Some(i);
        }
        i += 1;
    }
    let ghost own = match find_resource(rs@, id@, 0) {
        Some(k) => own_steps(rs@[k], k),
        None => Seq::empty(),
    };
    match found {
        Some(k) => {
            let res = &rs[k];
            for j in 0..res.downloads.len()
                invariant
                    step_views(all@) =~= Seq::new(
                        j as nat,
                        |t: int| download_step(res.downloads@[t]),
                    ),
            {
                let ghost before = step_views(all@);
                push_step(&mut all, download_step_exec(&res.downloads[j]));
                assert(step_views(all@) =~= Seq::new(
                    (j + 1) as nat,
                    |t: int| download_step(res.downloads@[t]),
                ));
            }
            if res.archive.is_some() {
                push_step(&mut all, PlanStep::InstallArchive { resource: k });
            }
            assert(step_views(all@) =~= own);
        },
        None => {
            assert(step_views(all@) =~= own);
        },
    }
    for k in 0..rs.len()
        invariant
            step_views(all@) == own + all_component_steps(rs@.take(k as int), id@),
    {
        assert(rs@.take(k + 1).drop_last() =~= rs@.take(k as int));
        let ghost before = step_views(all@);
        component_steps_exec(&mut all, &rs[k], id);
        assert(step_views(all@) =~= own + all_component_steps(rs@.take(k + 1), id@));
    }
    assert(rs@.take(rs@.len() as int) =~= rs@);
    // Keep the steps up to the first failure.
    let ghost full = step_views(all@);
    let mut input = all;
    let mut out: Vec<PlanStep> = Vec::new();
    let mut taken: usize = 0;
    let n = input.len();
    assert(install_plan(manifest.resources@, id@) == until_fail(full));
    assert(step_views(out@) + until_fail(full.skip(0)) =~= until_fail(full)) by {
        assert(full.skip(0) =~= full);
    }
    while taken < n
        invariant
            install_plan(manifest.resources@, id@) == until_fail(full),
            taken <= n == full.len(),
            input@.len() == n - taken,
            forall|t: int| 0 <= t < input@.len() ==> step_view(#[trigger] input@[t]) == full[taken
                + t],
            step_views(out@) + until_fail(full.skip(taken as int)) == until_fail(full),
        decreases n - taken,
    {
        let ghost old_input = input@;
        assert(step_view(old_input[0]) == full[taken as int]);
        let s = input.remove(0);
        assert forall|t: int| 0 <= t < input@.len() implies step_view(#[trigger] input@[t])
            == full[taken + 1 + t] by {
            assert(input@[t] == old_input[t + 1]);
        }
        let ghost rest = full.skip(taken as int);
        assert(rest[0] == full[taken as int]);
        assert(rest.drop_first() =~= full.skip(taken + 1));
        let stop = match &s {
            PlanStep::Fail { .. } => true,
            _ => false,
        };
        let ghost before = step_views(out@);
        push_step(&mut out, s);
        taken += 1;
        if stop {
            assert(step_views(out@) =~= until_fail(full));
            return out;
        }
        assert(step_views(out@) + until_fail(full.skip(taken as int)) =~= until_fail(full));
    }
    assert(full.skip(n as int) =~= Seq::<StepView>::empty());
    assert(step_views(out@) =~= until_fail(full));
    out
}

/// The outcome of installing a resource.
pub struct DownloadResult {
    pub resource_id: String,
    pub files: usize,
    pub bytes: u64,
}

/// A resource for which nothing was downloaded has not been published yet.
pub fn download_result(resource_id: &str, files: usize, bytes: u64) -> (r: Result<
    DownloadResult,
    String,
>)
    ensures
        r is Ok <==> files > 0,
        r matches Ok(d) ==> d.resource_id@ == resource_id@ && d.files == files && d.bytes == bytes,
        r matches Err(e) ==> e@ == resource_id@ + " is awaiting a published release asset"@,
{
    if files == 0 {
        return Err(message_for(resource_id, " is awaiting a published release asset"));
    }
    Ok(DownloadResult { resource_id: resource_id.to_owned(), files, bytes })
}

/// The sum of the sizes.
pub open spec fn total_bytes(sizes: Seq<u64>) -> nat
    decreases sizes.len(),
{
    if sizes.len() == 0 {
        0
    } else {
        total_bytes(sizes.drop_last()) + sizes.last() as nat
    }
}

/// The result of installing `resource_id` from the sizes of the files it
/// downloaded, in order: their count and their total size (held at
/// `u64::MAX` should it ever exceed it), or the refusal when nothing was
/// downloaded (see `download_result`).
pub fn download_summary(resource_id: &str, sizes: &Vec<u64>) -> (r: Result<DownloadResult, String>)
    ensures
        r is Ok <==> sizes@.len() > 0,
        r matches Ok(d) ==> d.resource_id@ == resource_id@ && d.files == sizes@.len() && d.bytes
            == if total_bytes(sizes@) <= u64::MAX {
            total_bytes(sizes@)
        } else {
            u64::MAX as nat
        },
        r matches Err(e) ==> e@ == resource_id@ + " is awaiting a published release asset"@,
{
    let mut bytes: u64 = 0;
    for i in 0..sizes.len()
        invariant
            bytes == if total_bytes(sizes@.take(i as int)) <= u64::MAX {
                total_bytes(sizes@.take(i as int))
            } else {
                u64::MAX as nat
            },
    {
        assert(sizes@.take(i + 1).drop_last() =~= sizes@.take(i as int));
        bytes = bytes.saturating_add(sizes[i]);
    }
    assert(sizes@.take(sizes@.len() as int) =~= sizes@);
    download_result(resource_id, sizes.len(), bytes)
}

/// The only place a runtime archive may be installed.
pub open spec fn runtime_destination() -> Seq<char> {
    "runtime/diffsynth"@
}

/// An archive's destination must be the runtime folder.
pub fn check_archive_destination(resource_id: &str, destination: &str) -> (r: Result<String, String>)
    ensures
        match safe_resource_relative_spec(destination@) {
            Err(m) => r matches Err(e) && e@ == m,
            Ok(d) => if same_path(d, runtime_destination()) {
                r matches Ok(v) && v@ == d
            } else {
                r matches Err(e) && e@ == "Unsupported archive destination for "@ + resource_id@
            },
        },
{
    let d = safe_resource_relative(destination)?;
    if !same_path_exec(&chars_of(d.as_str()), &chars_of("runtime/diffsynth")) {
        return Err(message_for("Unsupported archive destination for ", resource_id));
    }
    Ok(d)
}

/// `s` without its leading copies of `./` (`trim_start_matches("./")`).
pub open spec fn strip_dot_slash(s: Seq<char>) -> Seq<char>
    decreases s.len(),
{
    if s.len() >= 2 && s[0] == '.' && s[1] == '/' {
        strip_dot_slash(s.skip(2))
    } else {
        s
    }
}

/// Why one line of an archive listing is refused, if it is: a path that is
/// not a safe relative path, or one outside the runtime folder.
pub open spec fn entry_error(entry: Seq<char>) -> Option<Seq<char>> {
    let n = strip_dot_slash(trim(entry));
    if n.len() == 0 {
        None
    } else {
        match safe_resource_relative_spec(strip_end(n, '/')) {
            Err(m) => Some(m),
            Ok(rel) => if starts_with(rel, runtime_destination()) {
                None
            } else {
                Some("Runtime archive contains an unexpected path: "@ + entry)
            },
        }
    }
}

/// The first refusal among the lines of an archive listing.
pub open spec fn listing_error(ls: Seq<Seq<char>>) -> Option<Seq<char>>
    decreases ls.len(),
{
    if ls.len() == 0 {
        None
    } else {
        match entry_error(ls[0]) {
            Some(e) => Some(e),
            None => listing_error(ls.drop_first()),
        }
    }
}

fn strip_dot_slash_exec(s: &[char]) -> (r: Vec<char>)
    ensures
        r@ == strip_dot_slash(s@),
{
    let mut i: usize = 0;
    assert(s@.skip(0) =~= s@);
    while s.len() - i >= 2 && s[i] == '.' && s[i + 1] == '/'
        invariant
            i <= s@.len(),
            strip_dot_slash(s@) == strip_dot_slash(s@.skip(i as int)),
        decreases s.len() - i,
    {
        assert(s@.skip(i as int).skip(2) =~= s@.skip(i + 2));
        i += 2;
    }
    assert(s@.subrange(i as int, s@.len() as int) =~= s@.skip(i as int));
    sub_chars(s, i, s.len())
}

fn entry_error_exec(entry: &Vec<char>) -> (r: Option<String>)
    ensures
        opt_text(r) == entry_error(entry@),
{
    let n = strip_dot_slash_exec(&trim_exec(entry));
    if n.len() == 0 {
        return None;
    }
    let stripped = string_of(&strip_end_exec(&n, '/'));
    match safe_resource_relative(stripped.as_str()) {
        Err(m) => Some(m),
        Ok(rel) => {
            if starts_with_exec(&chars_of(rel.as_str()), &chars_of("runtime/diffsynth")) {
                None
            } else {
                let mut m = chars_of("Runtime archive contains an unexpected path: ");
                concat_chars(&mut m, entry);
                Some(string_of(&m))
            }
        },
    }
}

/// Checks the listing of a runtime archive: every named path must be a safe
/// relative path inside the runtime folder.
pub fn check_archive_listing(listing: &str) -> (r: Result<(), String>)
    ensures
        match listing_error(lines(listing@)) {
            None => r is Ok,
            Some(e) => r matches Err(m) && m@ == e,
        },
{
    let ls = lines_exec(&chars_of(listing));
    let ghost lv = views(ls@);
    assert(lv.skip(0) =~= lv);
    for i in 0..ls.len()
        invariant
            lv == views(ls@),
            lv == lines(listing@),
            listing_error(lv) == listing_error(lv.skip(i as int)),
    {
        assert(lv.skip(i as int)[0] == ls@[i as int]@);
        assert(lv.skip(i as int).drop_first() =~= lv.skip(i + 1));
        match entry_error_exec(&ls[i]) {
            Some(e) => {
                return Err(e);
            },
            None => {},
        }
    }
    assert(lv.skip(ls.len() as int) =~= Seq::<Seq<char>>::empty());
    Ok(())
}

/// An extracted runtime is complete when it holds its interpreter
/// (`python/python.exe`) and its `diffsynth` package folder.
pub fn check_staged_runtime(python_is_file: bool, package_is_dir: bool) -> (r: Result<(), String>)
    ensures
        r is Ok <==> python_is_file && package_is_dir,
        r matches Err(e) ==> e@ == "The extracted FLUX runtime is incomplete"@,
{
    if !python_is_file || !package_is_dir {
        return Err("The extracted FLUX runtime is incomplete".to_owned());
    }
    Ok(())
}

/// How a download starts, given the bytes a `.part` file from an earlier
/// attempt already holds.
pub enum ResumeStart {
    /// Nothing to keep: request the whole file.
    Fresh,
    /// Keep the bytes and request the rest, from this offset on.
    From { offset: u64 },
    /// The part already holds the declared size: request nothing and check it.
    Complete,
}

/// The start of a download whose `.part` file holds `part_length` bytes and
/// whose declared size is `expected_bytes`: an empty part, or one longer
/// than the declared size, starts afresh; one of exactly the declared size
/// is complete; any other is resumed where it stops.
pub open spec fn resume_start_spec(part_length: u64, expected_bytes: Option<u64>) -> ResumeStart {
    if part_length == 0 {
        ResumeStart::Fresh
    } else {
        match expected_bytes {
            Some(n) => if part_length > n {
                ResumeStart::Fresh
            } else if part_length == n {
                ResumeStart::Complete
            } else {
                ResumeStart::From { offset: part_length }
            },
            None => ResumeStart::From { offset: part_length },
        }
    }
}

/// How a download starts (see `resume_start_spec`).
pub fn resume_start(part_length: u64, expected_bytes: Option<u64>) -> (r: ResumeStart)
    ensures
        r == resume_start_spec(part_length, expected_bytes),
{
    if part_length == 0 {
        return ResumeStart::Fresh;
    }
    match expected_bytes {
        Some(n) => if part_length > n {
            ResumeStart::Fresh
        } else if part_length == n {
            ResumeStart::Complete
        } else {
            ResumeStart::From { offset: part_length }
        },
        None => ResumeStart::From { offset: part_length },
    }
}

/// Whether the answer to a ranged request continues the kept bytes: a
/// partial-content answer (206) whose range starts exactly at `offset`.
/// Any other successful answer holds the whole file, and the kept bytes
/// are dropped.
pub fn continues_part(offset: u64, status: u16, range_start: Option<u64>) -> (r: bool)
    ensures
        r <==> status == 206 && range_start == Some(offset),
{
    status == 206 && match range_start {
        Some(s) => s == offset,
        None => false,
    }
}

/// The number of attempts a download gets.
pub open spec fn download_attempts() -> u32 {
    4
}

/// The wait before attempt `attempt + 1` after attempt `attempt` (counted
/// from 1) failed for a temporary reason: one second, doubled after each
/// failure, and none once all attempts are spent.
pub open spec fn retry_delay_spec(attempt: u32) -> Option<u64> {
    if 1 <= attempt && attempt < download_attempts() {
        Some((1000 * pow2((attempt - 1) as nat)) as u64)
    } else {
        None
    }
}

/// `2` to the power `n`.
pub open spec fn pow2(n: nat) -> nat
    decreases n,
{
    if n == 0 {
        1
    } else {
        2 * pow2((n - 1) as nat)
    }
}

/// The wait in milliseconds before retrying (see `retry_delay_spec`).
pub fn retry_delay(attempt: u32) -> (r: Option<u64>)
    ensures
        r == retry_delay_spec(attempt),
{
    proof {
        reveal_with_fuel(pow2, 3);
    }
    if attempt == 1 {
        Some(1000)
    } else if attempt == 2 {
        Some(2000)
    } else if attempt == 3 {
        Some(4000)
    } else {
        None
    }
}

/// Whether a failed transfer is worth another attempt: the connection
/// failed or timed out, or the server answered with a temporary error
/// (408, 429 or a 5xx status).
pub fn is_temporary_failure(status: Option<u16>) -> (r: bool)
    ensures
        r <==> match status {
            None => true,
            Some(s) => s == 408 || s == 429 || (500 <= s && s <= 599),
        },
{
    match status {
        None => true,
        Some(s) => s == 408 || s == 429 || (500 <= s && s <= 599),
    }
}

/// The first byte position of a `Content-Range` header's value, as in
/// `bytes 100-199/200`: the decimal number between `bytes ` and the first
/// `-`, if it is one.
pub open spec fn content_range_start_spec(value: Seq<char>) -> Option<u64> {
    let unit = "bytes "@;
    if value.len() >= unit.len() && value.take(unit.len() as int) == unit {
        let rest = value.skip(unit.len() as int);
        match find(rest, "-"@) {
            Some(k) => parse_u64(rest.take(k)),
            None => None,
        }
    } else {
        None
    }
}

/// Reads the first byte position of a `Content-Range` header's value (see
/// `content_range_start_spec`).
pub fn content_range_start(value: &str) -> (r: Option<u64>)
    ensures
        r == content_range_start_spec(value@),
{
    let v = chars_of(value);
    let unit = chars_of("bytes ");
    if v.len() < unit.len() || !chars_eq(&sub_chars(&v, 0, unit.len()), &unit) {
        proof {
            if v@.len() >= unit@.len() {
                assert(v@.subrange(0, unit@.len() as int) =~= v@.take(unit@.len() as int));
            }
        }
        return None;
    }
    assert(v@.subrange(0, unit@.len() as int) =~= v@.take(unit@.len() as int));
    let rest = sub_chars(&v, unit.len(), v.len());
    assert(rest@ =~= v@.skip(unit@.len() as int));
    let dash = chars_of("-");
    match find_exec(&rest, &dash) {
        Some(k) => {
            proof {
                lemma_find_in_range(rest@, dash@, 0);
            }
            let digits = sub_chars(&rest, 0, k);
            assert(digits@ =~= rest@.take(k as int));
            parse_u64_exec(&digits)
        },
        None => None,
    }
}

/// A step of replacing the installed runtime with the staged one.
#[derive(Clone, Copy)]
pub enum SwapAction {
    /// Remove a backup left by an earlier installation.
    ClearBackup,
    /// Move the installed runtime aside, to the backup folder.
    MoveCurrentAside,
    /// Move the staged runtime into the runtime folder.
    MoveStagedIntoPlace,
    /// Remove the backup of the replaced runtime.
    RemoveBackup,
}

/// What replacing the runtime does next.
pub enum SwapNext {
    Do(SwapAction),
    Succeed,
    /// Stop with `message`, first moving the backup back into place (its own
    /// failure ignored) when `restore_backup` is set.
    Fail { restore_backup: bool, message: String },
}

/// The plain values of a `SwapNext`.
pub enum SwapNextView {
    Do(SwapAction),
    Succeed,
    Fail { restore_backup: bool, message: Seq<char> },
}

/// A `SwapNext` as plain values.
pub open spec fn swap_next_view(n: SwapNext) -> SwapNextView {
    match n {
        SwapNext::Do(a) => SwapNextView::Do(a),
        SwapNext::Succeed => SwapNextView::Succeed,
        SwapNext::Fail { restore_backup, message } => SwapNextView::Fail {
            restore_backup,
            message: message@,
        },
    }
}

/// The step that moves the staged runtime in, after the backup is clear.
pub open spec fn swap_move(current_exists: bool) -> SwapNextView {
    if current_exists {
        SwapNextView::Do(SwapAction::MoveCurrentAside)
    } else {
        SwapNextView::Do(SwapAction::MoveStagedIntoPlace)
    }
}

/// Replacing the runtime, given whether a backup and an installed runtime
/// existed when it began, `last` the step just taken (none at the start)
/// and `failure` its error: clear an old backup, move the installed
/// runtime aside, move the staged one in and remove the backup. A failure
/// stops with its message; when the staged runtime cannot be moved in, the
/// backup of the replaced runtime is moved back first.
pub open spec fn swap_next_spec(
    backup_exists: bool,
    current_exists: bool,
    last: Option<SwapAction>,
    failure: Option<Seq<char>>,
) -> SwapNextView {
    match last {
        None => if backup_exists {
            SwapNextView::Do(SwapAction::ClearBackup)
        } else {
            swap_move(current_exists)
        },
        Some(SwapAction::ClearBackup) => match failure {
            Some(e) => SwapNextView::Fail {
                restore_backup: false,
                message: "Cannot clear old runtime backup: "@ + e,
            },
            None => swap_move(current_exists),
        },
        Some(SwapAction::MoveCurrentAside) => match failure {
            Some(e) => SwapNextView::Fail {
                restore_backup: false,
                message: "Cannot stage the existing runtime for replacement: "@ + e,
            },
            None => SwapNextView::Do(SwapAction::MoveStagedIntoPlace),
        },
        Some(SwapAction::MoveStagedIntoPlace) => match failure {
            Some(e) => SwapNextView::Fail {
                restore_backup: current_exists,
                message: "Cannot install the FLUX runtime: "@ + e,
            },
            None => if current_exists {
                SwapNextView::Do(SwapAction::RemoveBackup)
            } else {
                SwapNextView::Succeed
            },
        },
        Some(SwapAction::RemoveBackup) => match failure {
            Some(e) => SwapNextView::Fail {
                restore_backup: false,
                message: "Cannot remove the old runtime backup: "@ + e,
            },
            None => SwapNextView::Succeed,
        },
    }
}

fn swap_fail(restore_backup: bool, prefix: &str, e: &str) -> (r: SwapNext)
    ensures
        swap_next_view(r) == (SwapNextView::Fail { restore_backup, message: prefix@ + e@ }),
{
    let mut m = chars_of(prefix);
    concat_chars(&mut m, &chars_of(e));
    SwapNext::Fail { restore_backup, message: string_of(&m) }
}

fn swap_move_exec(current_exists: bool) -> (r: SwapNext)
    ensures
        swap_next_view(r) == swap_move(current_exists),
{
    if current_exists {
        SwapNext::Do(SwapAction::MoveCurrentAside)
    } else {
        SwapNext::Do(SwapAction::MoveStagedIntoPlace)
    }
}

/// The next step of replacing the runtime (see `swap_next_spec`).
pub fn swap_next(
    backup_exists: bool,
    current_exists: bool,
    last: Option<SwapAction>,
    failure: Option<&str>,
) -> (r: SwapNext)
    ensures
        swap_next_view(r) == swap_next_spec(
            backup_exists,
            current_exists,
            last,
            match failure {
                Some(e) => Some(e@),
                None => None,
            },
        ),
{
    match last {
        None => if backup_exists {
            SwapNext::Do(SwapAction::ClearBackup)
        } else {
            swap_move_exec(current_exists)
        },
        Some(SwapAction::ClearBackup) => match failure {
            Some(e) => swap_fail(false, "Cannot clear old runtime backup: ", e),
            None => swap_move_exec(current_exists),
        },
        Some(SwapAction::MoveCurrentAside) => match failure {
            Some(e) => swap_fail(false, "Cannot stage the existing runtime for replacement: ", e),
            None => SwapNext::Do(SwapAction::MoveStagedIntoPlace),
        },
        Some(SwapAction::MoveStagedIntoPlace) => match failure {
            Some(e) => swap_fail(current_exists, "Cannot install the FLUX runtime: ", e),
            None => if current_exists {
                SwapNext::Do(SwapAction::RemoveBackup)
            } else {
                SwapNext::Succeed
            },
        },
        Some(SwapAction::RemoveBackup) => match failure {
            Some(e) => swap_fail(false, "Cannot remove the old runtime backup: ", e),
            None => SwapNext::Succeed,
        },
    }
}

} // verus!
