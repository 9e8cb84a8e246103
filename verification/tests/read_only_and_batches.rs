use image::{DynamicImage, ImageBuffer, ImageFormat, Rgba};
use std::io::Cursor;
use ui_studio::imaging::FileRead;
use ui_studio::resources::download_summary;
use ui_studio::safety::{safe_relative, safe_resource_relative};
use ui_studio::system::check_downloads_allowed;
use ui_studio::validation::{
    check_separate_roots, copy_pass_results, item_target, validated_batch, CopyRecord, WorkerEntry,
    WorkerItem,
};
use ui_studio::worker::check_batch_paths;

fn png_bytes(width: u32, height: u32, pixel: [u8; 4]) -> Vec<u8> {
    let pixels = ImageBuffer::from_pixel(width, height, Rgba(pixel));
    let mut buffer = Vec::new();
    DynamicImage::ImageRgba8(pixels)
        .write_to(&mut Cursor::new(&mut buffer), ImageFormat::Png)
        .unwrap();
    buffer
}

fn read(bytes: &[u8]) -> FileRead {
    FileRead::Read { contents: bytes.to_vec(), length: bytes.len() as u64 }
}

fn unread() -> FileRead {
    FileRead::Read { contents: Vec::new(), length: 0 }
}

#[test]
fn outputs_inside_the_source_are_refused() {
    let refusal = "Output folder must be separate from and outside the source folder";
    assert!(check_separate_roots("/t/source", "/t").is_ok());
    assert!(check_separate_roots("/t/source", "/").is_ok());
    assert_eq!(check_separate_roots("/t/source", "/t/source/export").unwrap_err(), refusal);
    assert!(check_separate_roots("/t/source", "/t/output").is_ok());
    assert_eq!(check_batch_paths("/t/source", "/t", &vec!["a.png".to_string()]), Ok(true));
    assert_eq!(check_batch_paths("/t/source", "/t/source/out", &vec!["a.png".to_string()]).unwrap_err(), refusal);

    match item_target("/t/source", "/t", "source/x.png".to_string()) {
        Err(result) => {
            assert_eq!(result.status, "failed");
            assert_eq!(result.message, refusal);
            assert_eq!(result.output_path, "/t/source/x.png");
        }
        Ok(_) => panic!("an output inside the source folder was accepted"),
    }
    match item_target("/t/source", "/t", "source\\x.png".to_string()) {
        Err(result) => assert_eq!(result.message, refusal),
        Ok(_) => panic!("a backslash path into the source folder was accepted"),
    }
    assert!(check_separate_roots("C:\\t\\source", "C:/t").is_ok());
    assert_eq!(check_separate_roots("C:/t/source", "C:\\t\\source\\out").unwrap_err(), refusal);
    assert!(check_separate_roots("C:/t/source", "C:/t/output").is_ok());
    let target = item_target("/t/source", "/t", "other/x.png".to_string()).ok().unwrap();
    assert_eq!(target.output_path, "/t/other/x.png");
}

#[test]
fn windows_separators_and_drive_prefixes_are_refused() {
    assert_eq!(safe_relative("..\\escape.png").unwrap_err(), "Unsafe relative path: ..\\escape.png");
    assert_eq!(safe_relative("C:x.png").unwrap_err(), "Unsafe relative path: C:x.png");
    assert_eq!(safe_relative("c:\\x.png").unwrap_err(), "Unsafe relative path: c:\\x.png");
    assert_eq!(safe_relative("ab:c.png").unwrap(), "ab:c.png");
    assert_eq!(safe_relative("x/a:b.png").unwrap(), "x/a:b.png");
    assert_eq!(safe_relative("1:x.png").unwrap(), "1:x.png");
    assert_eq!(safe_relative("\\root.png").unwrap_err(), "Unsafe relative path: \\root.png");
    assert_eq!(safe_relative("a\\.\\b.png").unwrap(), "a\\.\\b.png");
    assert_eq!(safe_relative("HUD\\icons\\Button.png").unwrap(), "HUD\\icons\\Button.png");
    assert_eq!(safe_resource_relative("models\\..\\..\\x").unwrap_err(), "Unsafe resource destination: models\\..\\..\\x");
    assert!(safe_resource_relative("models/vae\\model.bin").is_ok());
}

#[test]
fn downloads_need_a_named_gpu() {
    let refusal = "Downloads are disabled because no CUDA-capable NVIDIA GPU with a working NVIDIA driver was detected";
    assert_eq!(check_downloads_allowed(None).unwrap_err(), refusal);
    assert_eq!(check_downloads_allowed(Some(" \n")).unwrap_err(), refusal);
    assert!(check_downloads_allowed(Some("NVIDIA GeForce RTX 4070\n")).is_ok());
}

#[test]
fn download_totals_count_files_and_bytes() {
    let done = download_summary("flux-vae", &vec![100, 23]).ok().unwrap();
    assert_eq!((done.resource_id.as_str(), done.files, done.bytes), ("flux-vae", 2, 123));
    let huge = download_summary("x", &vec![u64::MAX, 5]).ok().unwrap();
    assert_eq!((huge.files, huge.bytes), (2, u64::MAX));
    assert_eq!(download_summary("x", &vec![]).err().unwrap(), "x is awaiting a published release asset");
}

#[test]
fn worker_batch_keeps_one_result_per_entry_in_order() {
    let src = png_bytes(6, 4, [9, 9, 9, 120]);
    let item = |rel: &str, status: &str| WorkerItem {
        relative_path: rel.to_string(),
        status: status.to_string(),
        message: "Repainted".to_string(),
    };
    let entries = vec![
        WorkerEntry { item: item("ui/b.png", "complete"), source: read(&src), output: read(&src) },
        WorkerEntry { item: item("../a.png", "complete"), source: unread(), output: unread() },
        WorkerEntry { item: item("ui/c.png", "failed"), source: read(&src), output: unread() },
    ];
    let results = validated_batch("/in", "/out", &entries);
    assert_eq!(results.len(), 3);
    assert!(results[0].valid);
    assert_eq!(results[0].relative_path, "ui/b.png");
    assert_eq!(results[1].message, "Unsafe relative path: ../a.png");
    assert_eq!(results[2].status, "failed");
    assert_eq!(results[2].message, "Repainted");
}

#[test]
fn identical_copy_validates() {
    let src = png_bytes(3, 5, [200, 10, 10, 64]);
    let entries = vec![WorkerEntry {
        item: WorkerItem { relative_path: "x/y.PNG".to_string(), status: "complete".to_string(), message: "Done".to_string() },
        source: read(&src),
        output: read(&src),
    }];
    let results = validated_batch("/in", "/elsewhere/out", &entries);
    assert!(results[0].valid);
    assert!(results[0].alpha_preserved);
    assert_eq!(results[0].output_width, Some(3));
}

#[test]
fn copy_pass_reports_every_request_in_order() {
    let button = png_bytes(13, 9, [120, 80, 40, 128]);
    let record = |rel: &str, exists: bool, copied: Result<FileRead, String>| CopyRecord {
        relative_path: rel.to_string(),
        source: read(&button),
        output_exists: exists,
        copied,
    };
    let records = vec![
        record("HUD/icons/Button.PNG", false, Ok(read(&button))),
        record("HUD/icons/Button.PNG", true, Ok(unread())),
        record("../escape.png", false, Ok(unread())),
        record("HUD/b.png", false, Err("disk full".to_string())),
        record("source/x.png", false, Ok(unread())),
    ];
    let results = copy_pass_results("/t/source", "/t", false, &records);
    assert_eq!(results.len(), 5);
    assert!(results[0].valid);
    assert_eq!(results[4].message, "Output folder must be separate from and outside the source folder");

    let results = copy_pass_results("/t/source", "/t/out", false, &records);
    assert!(results[0].valid);
    assert_eq!(results[0].output_path, "/t/out/HUD/icons/Button.PNG");
    assert_eq!(results[0].message, "Exact size, path, name, extension, and pixel alpha validated");
    assert_eq!(results[1].status, "skipped");
    assert_eq!(results[1].message, "Output already exists; overwrite is disabled");
    assert_eq!(results[2].message, "Unsafe relative path: ../escape.png");
    assert_eq!(results[3].status, "failed");
    assert_eq!(results[3].message, "disk full");
    assert_eq!(results[3].source_width, 13);
    assert_eq!(results[4].status, "failed");
    assert_eq!(results[4].output_path, "/t/out/source/x.png");
}
