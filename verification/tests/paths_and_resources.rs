use ui_studio::integrity::{check_download, check_download_request, check_sha256, check_size, part_path, ContentDigest};
use ui_studio::probe::{portable_resource_probe, probe_paths, ProbePresence};
use ui_studio::resources::{
    check_archive_destination, check_archive_listing, download_result, is_portable, plan_install,
    resource_install_root, settings_scope, ManifestArchive, ManifestDownload, ManifestFile,
    ManifestResource, PlanStep, ResourceManifest,
};
use ui_studio::safety::{looks_like_image, safe_relative, safe_resource_relative, supported_extension};
use ui_studio::system::{cuda_driver_available, detect_cuda_version, parse_gpu_rows, system_scan};
use ui_studio::worker::{
    batch_manifest_name, check_batch_paths, check_batch_settings, check_worker_files,
    runtime_python_path, worker_output, worker_python, worker_script,
};

#[test]
fn relative_paths_follow_path_components() {
    assert_eq!(safe_relative("a/b.png").unwrap(), "a/b.png");
    assert_eq!(safe_relative("a/./b.png").unwrap(), "a/./b.png");
    assert_eq!(safe_relative("x.PNG").unwrap(), "x.PNG");
    assert_eq!(safe_relative("/abs.png").unwrap_err(), "Unsafe relative path: /abs.png");
    assert_eq!(safe_relative("./x.png").unwrap_err(), "Unsafe relative path: ./x.png");
    assert_eq!(safe_relative("a/../b.png").unwrap_err(), "Unsafe relative path: a/../b.png");
    assert_eq!(safe_relative("a/x.gif").unwrap_err(), "Unsupported output extension: a/x.gif");
    assert_eq!(safe_relative("").unwrap_err(), "Unsupported output extension: ");
    assert_eq!(safe_resource_relative("").unwrap_err(), "Unsafe resource destination: ");
    assert_eq!(safe_resource_relative("models/a.bin").unwrap(), "models/a.bin");
    assert!(safe_resource_relative("../x").is_err());
}

#[test]
fn extensions_are_case_insensitive() {
    assert!(supported_extension("a/b.JPeG"));
    assert!(supported_extension("a.png/"));
    assert!(!supported_extension(".png"));
    assert!(!supported_extension("a/png"));
    assert!(!supported_extension("a.tga"));
    assert!(looks_like_image("x.TGA"));
    assert!(looks_like_image("x.png"));
    assert!(!looks_like_image("x.txt"));
}

#[test]
fn cuda_version_is_read_from_report() {
    let report = "| NVIDIA-SMI 550.54   Driver Version: 550.54   CUDA Version: 12.4     |";
    assert_eq!(detect_cuda_version(report), Some("12.4".to_string()));
    let both = "CUDA Version: 12.2\nCUDA UMD Version: 12.6\n";
    assert_eq!(detect_cuda_version(both), Some("12.6".to_string()));
    assert_eq!(detect_cuda_version("CUDA Version: N/A"), None);
    assert_eq!(detect_cuda_version("CUDA Version:|12.1|"), Some("12.1".to_string()));
    assert_eq!(detect_cuda_version("CUDA Version:   "), None);
    assert_eq!(detect_cuda_version("no driver"), None);
}

#[test]
fn driver_needs_a_named_gpu() {
    assert!(!cuda_driver_available(None));
    assert!(!cuda_driver_available(Some(" \n\t")));
    assert!(cuda_driver_available(Some("NVIDIA GeForce RTX 4090\n")));
}

#[test]
fn gpu_rows_are_parsed() {
    let gpus = parse_gpu_rows("NVIDIA GeForce RTX 4090, 24564, 550.54\r\n, 1, 2\nA, x, y\nshort, 1\n");
    assert_eq!(gpus.len(), 2);
    assert_eq!(gpus[0].name, "NVIDIA GeForce RTX 4090");
    assert_eq!(gpus[0].memory_mib, 24564);
    assert_eq!(gpus[0].driver_version, "550.54");
    assert_eq!(gpus[1].name, "A");
    assert_eq!(gpus[1].memory_mib, 0);
    let big = parse_gpu_rows("G, 18446744073709551616, 1\nH, +7, 2");
    assert_eq!(big[0].memory_mib, 0);
    assert_eq!(big[1].memory_mib, 7);
}

#[test]
fn system_scan_cautions() {
    let none = system_scan(Vec::new(), None, Some("  ".to_string()), None, None, None, 8);
    assert!(!none.compatible);
    assert_eq!(none.cpu_name, "Unknown processor");
    assert_eq!(none.os_name, "Windows");
    assert_eq!(none.warning.unwrap(), "No CUDA-capable NVIDIA GPU with a working NVIDIA driver was detected. Resource downloads are disabled because FLUX cannot run on this PC.");

    let gpus = parse_gpu_rows("Small GPU, 4096, 1.0");
    let gib = 1024u64 * 1024 * 1024;
    let scan = system_scan(gpus, Some("CUDA Version: 12.4"), Some(" Ryzen ".to_string()), Some(8 * gib), Some(100 * gib), Some("Windows 11 24H2".to_string()), 16);
    assert!(scan.compatible && scan.nvidia_detected && scan.cuda_available);
    assert_eq!(scan.cuda_version, Some("12.4".to_string()));
    assert_eq!(scan.cpu_name, "Ryzen");
    assert_eq!(scan.os_name, "Windows 11 24H2");
    assert_eq!(scan.logical_cores, 16);
    assert_eq!(scan.warning.unwrap(), "Less than 6 GB of GPU memory was detected. FLUX may run out of memory at larger working resolutions. Less than 16 GB of system memory was detected. Processing may be unstable or very slow.");

    let roomy = system_scan(parse_gpu_rows("Big, 24576, 1"), None, None, Some(32 * gib), Some(30 * gib), None, 1);
    assert!(roomy.warning.is_none());
    assert_eq!(roomy.cuda_version, None);
}

fn fnv(text: &str) -> u64 {
    let mut hash = 14695981039346656037u64;
    for byte in text.as_bytes() {
        hash ^= u64::from(*byte);
        hash = hash.wrapping_mul(1099511628211);
    }
    hash
}

#[test]
fn settings_scope_is_stable() {
    assert_eq!(settings_scope("C:/Apps/UI-Studio", false, "0.1.0"), "development");
    let expected = format!("portable-0.1.0-{:016x}", fnv("c:/apps/ui-studio"));
    assert_eq!(settings_scope("C:/Apps/UI-Studio", true, "0.1.0"), expected);
    assert_eq!(settings_scope("c:/apps/ui-studio", true, "0.1.0"), expected);
}

#[test]
fn digest_and_size_checks() {
    let mut digest = ContentDigest::new();
    digest.update(b"a");
    digest.update(b"bc");
    let d = digest.finish();
    let hex = "ba7816bf8f01cfea414140de5dae2223b00361a396177a9cb410ff61f20015ad";
    assert!(check_sha256("f", &d, hex).is_ok());
    assert!(check_sha256("f", &d, &hex.to_uppercase()).is_ok());
    assert_eq!(check_sha256("f", &d, "00").unwrap_err(), "SHA-256 check failed for f");
    assert_eq!(check_size("f", 10, 9).unwrap_err(), "Size check failed for f: expected 10, received 9");
    assert!(check_size("f", 0, 0).is_ok());
    assert_eq!(check_download("https://x", 3, Some(4), &d, Some(hex)).unwrap_err(), "Size check failed for https://x: expected 4, received 3");
    assert!(check_download("https://x", 3, Some(3), &d, Some(hex)).is_ok());
    assert!(check_download("https://x", 3, None, &d, None).is_ok());
    assert_eq!(check_download_request("http://x", Some(1), false).unwrap_err(), "Resource URL must use HTTPS: http://x");
    assert_eq!(check_download_request("https://x", None, false).unwrap_err(), "Resource has no size or SHA-256 validation: https://x");
    assert!(check_download_request("https://x", None, true).is_ok());
    assert_eq!(part_path("models/a.bin"), "models/a.bin.part");
}

fn download(url: &str, destination: &str) -> ManifestDownload {
    ManifestDownload { url: url.to_string(), destination: destination.to_string(), bytes: Some(1), sha256: None }
}

fn file(path: &str, component: &str) -> ManifestFile {
    ManifestFile { path: path.to_string(), component: component.to_string(), bytes: None, sha256: Some("ab".to_string()) }
}

fn resource(id: &str, base: Option<&str>, destination: Option<&str>, downloads: Vec<ManifestDownload>, files: Vec<ManifestFile>, archive: bool) -> ManifestResource {
    ManifestResource {
        id: id.to_string(),
        base_url: base.map(|s| s.to_string()),
        destination: destination.map(|s| s.to_string()),
        downloads,
        files,
        archive: if archive {
            Some(ManifestArchive { parts: vec!["resources/downloads/a.part01".to_string()], bytes: 1, sha256: "ab".to_string(), destination: "runtime/diffsynth".to_string() })
        } else {
            None
        },
    }
}

fn describe(steps: &[PlanStep]) -> Vec<String> {
    steps
        .iter()
        .map(|s| match s {
            PlanStep::Download { url, destination, .. } => format!("get {url} -> {destination}"),
            PlanStep::InstallArchive { resource } => format!("archive {resource}"),
            PlanStep::Fail { message } => format!("fail {message}"),
        })
        .collect()
}

#[test]
fn install_plans_follow_the_manifest() {
    let manifest = ResourceManifest {
        resources: vec![
            resource("flux-runtime", None, None, vec![download("https://h/p1", "resources/downloads/a.part01")], vec![], true),
            resource("flux", Some("https://hf/m/"), Some("models/FLUX"), vec![], vec![file("vae\\model.bin", "flux-vae"), file("tok/t.json", "flux-tokenizer")], false),
        ],
    };
    assert_eq!(describe(&plan_install(&manifest, "flux-runtime")), vec![
        "get https://h/p1 -> resources/downloads/a.part01".to_string(),
        "archive 0".to_string(),
    ]);
    assert_eq!(describe(&plan_install(&manifest, "flux-vae")), vec![
        "get https://hf/m/vae/model.bin?download=true -> models/FLUX/vae\\model.bin".to_string(),
    ]);
    assert!(plan_install(&manifest, "unknown").is_empty());

    let broken = ResourceManifest {
        resources: vec![
            resource("x", None, None, vec![download("https://h/1", "../escape"), download("https://h/2", "ok")], vec![], false),
            resource("y", None, Some("models"), vec![], vec![file("a", "x")], false),
        ],
    };
    assert_eq!(describe(&plan_install(&broken, "x")), vec!["fail Unsafe resource destination: ../escape".to_string()]);
    let no_base = ResourceManifest { resources: vec![resource("y", None, Some("models"), vec![], vec![file("a", "x")], false)] };
    assert_eq!(describe(&plan_install(&no_base, "x")), vec!["fail x has no download base URL".to_string()]);
    let no_dest = ResourceManifest { resources: vec![resource("y", Some("https://b/"), None, vec![], vec![file("a", "x")], false)] };
    assert_eq!(describe(&plan_install(&no_dest, "x")), vec!["fail x has no destination".to_string()]);

    assert_eq!(download_result("flux-vae", 0, 0).err().unwrap(), "flux-vae is awaiting a published release asset");
    let done = download_result("flux-vae", 2, 10).ok().unwrap();
    assert_eq!((done.resource_id.as_str(), done.files, done.bytes), ("flux-vae", 2, 10));
}

#[test]
fn archive_checks() {
    assert_eq!(check_archive_destination("flux-runtime", "runtime/diffsynth").unwrap(), "runtime/diffsynth");
    assert!(check_archive_destination("flux-runtime", "runtime//diffsynth/").is_ok());
    assert_eq!(check_archive_destination("flux-runtime", "runtime/x").unwrap_err(), "Unsupported archive destination for flux-runtime");
    assert!(check_archive_listing("runtime/diffsynth/\n./runtime/diffsynth/python/python.exe\r\n\n").is_ok());
    assert_eq!(check_archive_listing("runtime/diffsynth/a\nruntime/other/x\n").unwrap_err(), "Runtime archive contains an unexpected path: runtime/other/x");
    assert_eq!(check_archive_listing("../evil\n").unwrap_err(), "Unsafe resource destination: ../evil");
}

#[test]
fn install_root_and_portability() {
    assert!(is_portable("/opt/ui", true, Some("/opt/ui/")));
    assert!(!is_portable("/opt/ui", false, Some("/opt/ui")));
    assert!(!is_portable("/opt/ui", true, Some("/opt")));
    assert!(!is_portable("/opt/ui", true, None));
    assert_eq!(resource_install_root("/opt/ui", true), "/opt/ui");
    assert_eq!(resource_install_root("/opt/ui", false), "/opt");
    assert_eq!(resource_install_root("/", false), "/");
}

#[test]
fn worker_launch_and_output() {
    assert_eq!(worker_python("/opt/ui", true, true).unwrap(), "/opt/ui/runtime/diffsynth/python/python.exe");
    assert_eq!(worker_python("/opt/ui", true, false).unwrap(), "/opt/ui/runtime/python/python.exe");
    assert_eq!(worker_python("/opt/dev/ui", false, true).unwrap(), "/opt/dev/external/DiffSynth-Studio/.venv/Scripts/python.exe");
    assert_eq!(worker_python("/opt/dev/ui", false, false).unwrap(), "/opt/dev/.venv/Scripts/python.exe");
    assert_eq!(worker_python("/", false, false).unwrap_err(), "Cannot locate Dreamy runtime root");
    assert_eq!(worker_script("/opt/ui"), "/opt/ui/tools/ui_studio_worker.py");
    assert_eq!(runtime_python_path("/opt/ui/"), "/opt/ui/runtime/diffsynth");
    assert_eq!(check_worker_files("p", false, "w", false).unwrap_err(), "Python runtime is missing: p");
    assert_eq!(check_worker_files("p", true, "w", false).unwrap_err(), "UI Studio worker is missing: w");
    assert!(check_worker_files("p", true, "w", true).is_ok());
    assert_eq!(worker_output(false, "", " \n").unwrap_err(), "UI Studio worker failed without an error message");
    assert_eq!(worker_output(false, "", " boom \n").unwrap_err(), "boom");
    assert_eq!(worker_output(true, " {\"results\":[]} \n", "noise").unwrap(), "{\"results\":[]}");
}

#[test]
fn batch_checks() {
    let none: Vec<String> = Vec::new();
    assert_eq!(check_batch_paths("/in", "/out", &none).unwrap(), false);
    assert!(check_batch_paths("/in", "/in/out", &none).unwrap_err().contains("outside the source"));
    assert_eq!(check_batch_paths("/in", "/out", &vec!["a.png".to_string()]).unwrap(), true);
    assert_eq!(check_batch_paths("/in", "/out", &vec!["a.png".to_string(), "b.txt".to_string(), "../c.png".to_string()]).unwrap_err(), "Unsupported output extension: b.txt");
    assert_eq!(check_batch_settings(5, 512).unwrap_err(), "Inference steps must be 4, 8, or 12");
    assert_eq!(check_batch_settings(8, 300).unwrap_err(), "FLUX working resolution must be 256, 512, 768, 1024, or 2048");
    assert!(check_batch_settings(12, 2048).is_ok());
    assert_eq!(batch_manifest_name("FLUX", 42, 1234567890123456789012345), "ui-studio-flux-42-1234567890123456789012345.json");
}

#[test]
fn portable_probe_reports_resources() {
    let paths = probe_paths("/opt/ui");
    assert_eq!(paths.flux_python, "/opt/ui/runtime/diffsynth/python/python.exe");
    assert_eq!(paths.flux_encoder_first_shard, "/opt/ui/models/FLUX.2-klein-4B/text_encoder/model-00001-of-00002.safetensors");
    assert_eq!(paths.lora, "/opt/ui/models/lora/DreamRoom-Objects-v1.safetensors");
    let mut found = ProbePresence {
        python_is_file: true,
        runtime_package_is_dir: true,
        transformer_is_file: true,
        encoder_first_shard_is_file: true,
        encoder_second_shard_is_file: true,
        vae_is_file: true,
        tokenizer_is_dir: true,
        lora_is_file: false,
    };
    let report = portable_resource_probe(&paths, &found);
    assert!(report.available);
    assert_eq!(report.resources.len(), 6);
    assert_eq!(report.resources[5].id, "dreamroom-lora");
    assert!(report.resources[5].optional && !report.resources[5].available);
    assert_eq!(report.resources[0].download_bytes, 3004596619);
    found.encoder_second_shard_is_file = false;
    let missing = portable_resource_probe(&paths, &found);
    assert!(!missing.available);
    assert!(!missing.resources[2].available);
}
