//! The status of the FLUX resources of a portable installation, read from
//! which of their files are present.
use vstd::prelude::*;
use crate::paths::join_exec;
use crate::text::{chars_of, string_of};

verus! {

/// Where the FLUX resources live below an installation root.
pub struct ProbePaths {
    pub flux_runtime: String,
    pub flux_python: String,
    pub flux_runtime_package: String,
    pub flux_transformer: String,
    pub flux_encoder: String,
    pub flux_encoder_first_shard: String,
    pub flux_encoder_second_shard: String,
    pub flux_vae: String,
    pub flux_tokenizer: String,
    pub lora: String,
}

/// The folder of the FLUX model files.
pub open spec fn flux_root(root: Seq<char>) -> Seq<char> {
    join(join(root, "models"@), "FLUX.2-klein-4B"@)
}

/// The folder of the FLUX runtime.
pub open spec fn runtime_dir(root: Seq<char>) -> Seq<char> {
    join(join(root, "runtime"@), "diffsynth"@)
}

/// The folder of the text encoder shards.
pub open spec fn encoder_dir(root: Seq<char>) -> Seq<char> {
    join(flux_root(root), "text_encoder"@)
}

/// `Path::join` on path texts.
pub open spec fn join(a: Seq<char>, b: Seq<char>) -> Seq<char> {
    crate::paths::join(a, b)
}

/// The layout of the resources below `root`.
pub open spec fn probe_paths_ok(p: ProbePaths, root: Seq<char>) -> bool {
    &&& p.flux_runtime@ == runtime_dir(root)
    &&& p.flux_python@ == join(join(runtime_dir(root), "python"@), "python.exe"@)
    &&& p.flux_runtime_package@ == join(runtime_dir(root), "diffsynth"@)
    &&& p.flux_transformer@ == join(
        join(flux_root(root), "transformer"@),
        "diffusion_pytorch_model.safetensors"@,
    )
    &&& p.flux_encoder@ == encoder_dir(root)
    &&& p.flux_encoder_first_shard@ == join(encoder_dir(root), "model-00001-of-00002.safetensors"@)
    &&& p.flux_encoder_second_shard@ == join(encoder_dir(root), "model-00002-of-00002.safetensors"@)
    &&& p.flux_vae@ == join(join(flux_root(root), "vae"@), "diffusion_pytorch_model.safetensors"@)
    &&& p.flux_tokenizer@ == join(flux_root(root), "tokenizer"@)
    &&& p.lora@ == join(
        join(join(root, "models"@), "lora"@),
        "DreamRoom-Objects-v1.safetensors"@,
    )
}

fn join_str(a: &Vec<char>, b: &str) -> (r: Vec<char>)
    ensures
        r@ == join(a@, b@),
{
    join_exec(a, &chars_of(b))
}

/// The paths of the resources of a portable installation at `root`.
pub fn probe_paths(root: &str) -> (p: ProbePaths)
    ensures
        probe_paths_ok(p, root@),
{
    let r = chars_of(root);
    let runtime = join_str(&join_str(&r, "runtime"), "diffsynth");
    let flux = join_str(&join_str(&r, "models"), "FLUX.2-klein-4B");
    let encoder = join_str(&flux, "text_encoder");
    ProbePaths {
        flux_runtime: string_of(&runtime),
        flux_python: string_of(&join_str(&join_str(&runtime, "python"), "python.exe")),
        flux_runtime_package: string_of(&join_str(&runtime, "diffsynth")),
        flux_transformer: string_of(
            &join_str(&join_str(&flux, "transformer"), "diffusion_pytorch_model.safetensors"),
        ),
        flux_encoder: string_of(&encoder),
        flux_encoder_first_shard: string_of(&join_str(&encoder, "model-00001-of-00002.safetensors")),
        flux_encoder_second_shard: string_of(
            &join_str(&encoder, "model-00002-of-00002.safetensors"),
        ),
        flux_vae: string_of(&join_str(&join_str(&flux, "vae"), "diffusion_pytorch_model.safetensors")),
        flux_tokenizer: string_of(&join_str(&flux, "tokenizer")),
        lora: string_of(
            &join_str(&join_str(&join_str(&r, "models"), "lora"), "DreamRoom-Objects-v1.safetensors"),
        ),
    }
}

/// Which resource files and folders were found.
pub struct ProbePresence {
    pub python_is_file: bool,
    pub runtime_package_is_dir: bool,
    pub transformer_is_file: bool,
    pub encoder_first_shard_is_file: bool,
    pub encoder_second_shard_is_file: bool,
    pub vae_is_file: bool,
    pub tokenizer_is_dir: bool,
    pub lora_is_file: bool,
}

/// The status of one resource.
pub struct ResourceStatus {
    pub id: String,
    pub group: String,
    pub name: String,
    pub description: String,
    pub path: String,
    pub available: bool,
    pub optional: bool,
    pub download_bytes: u64,
}

pub struct ProbeReport {
    pub available: bool,
    pub engine: String,
    pub resources: Vec<ResourceStatus>,
}

/// The runtime is present: its interpreter and its package folder.
pub open spec fn runtime_ready(f: ProbePresence) -> bool {
    f.python_is_file && f.runtime_package_is_dir
}

/// Both text encoder shards are present.
pub open spec fn encoder_ready(f: ProbePresence) -> bool {
    f.encoder_first_shard_is_file && f.encoder_second_shard_is_file
}

/// FLUX can run when the runtime, transformer, both encoder shards, the VAE
/// and the tokenizer are present; the LoRA is optional.
pub open spec fn flux_ready(f: ProbePresence) -> bool {
    runtime_ready(f) && f.transformer_is_file && encoder_ready(f) && f.vae_is_file
        && f.tokenizer_is_dir
}

/// The id, group, name, description, path, availability, optionality and
/// download size of each listed resource, in order.
pub open spec fn status_table(p: ProbePaths, f: ProbePresence) -> Seq<StatusRow> {
    let g = "FLUX.2 Klein 4B"@;
    seq![
        ("flux-runtime"@, g, "FLUX application runtime"@,
            "Portable Python environment and DiffSynth pipeline used by the FLUX backend."@,
            p.flux_runtime@, runtime_ready(f), false, 3004596619u64),
        ("flux-transformer"@, g, "FLUX.2 Klein transformer"@,
            "Main 4B-parameter image generation model used for FLUX repainting."@,
            p.flux_transformer@, f.transformer_is_file, false, 7751109744u64),
        ("flux-text-encoder"@, g, "FLUX text encoder"@,
            "Model shards that translate prompts and palette direction for FLUX."@,
            p.flux_encoder@, encoder_ready(f), false, 8045016597u64),
        ("flux-vae"@, g, "FLUX image VAE"@,
            "Encodes and reconstructs images for the FLUX repaint pipeline."@, p.flux_vae@,
            f.vae_is_file, false, 168121699u64),
        ("flux-tokenizer"@, g, "FLUX tokenizer"@,
            "Tokenizer files required to interpret the style prompt."@, p.flux_tokenizer@,
            f.tokenizer_is_dir, false, 15882232u64),
        ("dreamroom-lora"@, "FLUX LoRA"@, "DreamRoom Objects LoRA"@,
            "Built-in object-detail style add-on. FLUX can run without it when the LoRA switch is off."@,
            p.lora@, f.lora_is_file, true, 120449264u64),
    ]
}

/// A resource status as plain values: id, group, name, description, path,
/// availability, optionality and download size.
pub type StatusRow = (Seq<char>, Seq<char>, Seq<char>, Seq<char>, Seq<char>, bool, bool, u64);

/// The plain values of a resource status.
pub open spec fn status_row(s: ResourceStatus) -> StatusRow {
    (s.id@, s.group@, s.name@, s.description@, s.path@, s.available, s.optional, s.download_bytes)
}

fn status(
    id: &str,
    group: &str,
    name: &str,
    description: &str,
    path: &String,
    available: bool,
    optional: bool,
    download_bytes: u64,
) -> (r: ResourceStatus)
    ensures
        status_row(r) == (id@, group@, name@, description@, path@, available, optional, download_bytes),
{
    ResourceStatus {
        id: id.to_owned(),
        group: group.to_owned(),
        name: name.to_owned(),
        description: description.to_owned(),
        path: path.clone(),
        available,
        optional,
        download_bytes,
    }
}

/// The resource status of a portable installation.
pub fn portable_resource_probe(paths: &ProbePaths, found: &ProbePresence) -> (r: ProbeReport)
    ensures
        r.available == flux_ready(*found),
        r.engine@ == "FLUX.2 Klein 4B"@,
        r.resources@.len() == 6,
        forall|i: int|
            0 <= i < 6 ==> status_row(#[trigger] r.resources@[i]) == status_table(
                *paths,
                *found,
            )[i],
{
    let runtime_ready = found.python_is_file && found.runtime_package_is_dir;
    let encoder_ready = found.encoder_first_shard_is_file && found.encoder_second_shard_is_file;
    let mut resources: Vec<ResourceStatus> = Vec::new();
    resources.push(
        status(
            "flux-runtime",
            "FLUX.2 Klein 4B",
            "FLUX application runtime",
            "Portable Python environment and DiffSynth pipeline used by the FLUX backend.",
            &paths.flux_runtime,
            runtime_ready,
            false,
            3004596619u64,
        ),
    );
    resources.push(
        status(
            "flux-transformer",
            "FLUX.2 Klein 4B",
            "FLUX.2 Klein transformer",
            "Main 4B-parameter image generation model used for FLUX repainting.",
            &paths.flux_transformer,
            found.transformer_is_file,
            false,
            7751109744u64,
        ),
    );
    resources.push(
        status(
            "flux-text-encoder",
            "FLUX.2 Klein 4B",
            "FLUX text encoder",
            "Model shards that translate prompts and palette direction for FLUX.",
            &paths.flux_encoder,
            encoder_ready,
            false,
            8045016597u64,
        ),
    );
    resources.push(
        status(
            "flux-vae",
            "FLUX.2 Klein 4B",
            "FLUX image VAE",
            "Encodes and reconstructs images for the FLUX repaint pipeline.",
            &paths.flux_vae,
            found.vae_is_file,
            false,
            168121699u64,
        ),
    );
    resources.push(
        status(
            "flux-tokenizer",
            "FLUX.2 Klein 4B",
            "FLUX tokenizer",
            "Tokenizer files required to interpret the style prompt.",
            &paths.flux_tokenizer,
            found.tokenizer_is_dir,
            false,
            15882232u64,
        ),
    );
    resources.push(
        status(
            "dreamroom-lora",
            "FLUX LoRA",
            "DreamRoom Objects LoRA",
            "Built-in object-detail style add-on. FLUX can run without it when the LoRA switch is off.",
            &paths.lora,
            found.lora_is_file,
            true,
            120449264u64,
        ),
    );
    let available = runtime_ready && found.transformer_is_file && encoder_ready && found.vae_is_file
        && found.tokenizer_is_dir;
    ProbeReport { available, engine: "FLUX.2 Klein 4B".to_owned(), resources }
}

} // verus!
