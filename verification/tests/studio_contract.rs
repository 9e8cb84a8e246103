use image::{DynamicImage, ImageBuffer, ImageFormat, Rgba};
use std::io::Cursor;
use ui_studio::imaging::{alpha_matches, inspect, FileRead};
use ui_studio::inventory::{inventory_report, WalkEntry};
use ui_studio::safety::safe_relative;
use ui_studio::validation::{
    check_separate_roots, item_target, placeholder_result, placeholder_source_step,
    validated_worker_result, ItemTarget, ProcessResult, WorkerItem,
};

fn png_bytes(width: u32, height: u32, pixel: [u8; 4]) -> Vec<u8> {
    let pixels = ImageBuffer::from_pixel(width, height, Rgba(pixel));
    let mut buffer = Vec::new();
    DynamicImage::ImageRgba8(pixels)
        .write_to(&mut Cursor::new(&mut buffer), ImageFormat::Png)
        .unwrap();
    buffer
}

fn read(bytes: &[u8]) -> FileRead {
    FileRead::Read { contents: bytes.to_vec(), length: bytes.len() as u64 }
}

fn target(source: &str, output: &str, relative: &str) -> ItemTarget {
    match item_target(source, output, relative.to_string()) {
        Ok(t) => t,
        Err(r) => panic!("unexpected refusal: {}", r.message),
    }
}

fn copy_result(source: &str, output: &str, relative: &str, source_file: &FileRead, output_file: &FileRead, exists: bool) -> ProcessResult {
    let t = target(source, output, relative);
    match placeholder_source_step(&t, source, source_file, exists, false) {
        Ok(info) => placeholder_result(&t, &info, output, source_file, output_file),
        Err(result) => result,
    }
}

#[test]
fn inventory_and_mirrored_copy_preserve_contract() {
    let source = "/tmp/ui-studio-test/source";
    let output = "/tmp/ui-studio-test/output";
    let button = png_bytes(13, 9, [120, 80, 40, 128]);
    let entries = vec![
        WalkEntry::Other,
        WalkEntry::Other,
        WalkEntry::Other,
        WalkEntry::File { path: format!("{source}/HUD/icons/Button.PNG"), contents: read(&button) },
        WalkEntry::File { path: format!("{source}/broken.jpg"), contents: read(b"not an image") },
        WalkEntry::File { path: format!("{source}/legacy.gif"), contents: FileRead::Failed(String::new()) },
    ];
    let inventory = inventory_report(source.to_string(), &entries);
    assert_eq!(inventory.assets.len(), 1);
    assert_eq!(inventory.issues.len(), 2);
    assert_eq!(inventory.assets[0].width, 13);
    assert_eq!(inventory.assets[0].height, 9);
    assert!(inventory.assets[0].has_alpha);

    let source_file = read(&button);
    let copied = read(&button);
    let results = vec![copy_result(source, output, "HUD/icons/Button.PNG", &source_file, &copied, false)];
    assert_eq!(results.len(), 1);
    assert!(results[0].valid);
    assert_eq!(results[0].output_width, Some(13));
    assert_eq!(results[0].output_height, Some(9));
    assert!(results[0].alpha_preserved);
    assert_eq!(results[0].output_path, format!("{output}/HUD/icons/Button.PNG"));

    let repeated = vec![copy_result(source, output, "HUD/icons/Button.PNG", &source_file, &copied, true)];
    assert_eq!(repeated[0].status, "skipped");
}

#[test]
fn rejects_output_inside_source_and_parent_traversal() {
    let source = "/tmp/ui-studio-test/source";
    let error = check_separate_roots(source, &format!("{source}/export")).unwrap_err();
    assert!(error.contains("outside the source"));
    assert!(safe_relative("../escape.png").is_err());
}

#[test]
fn same_folder_is_refused_and_sibling_accepted() {
    assert!(check_separate_roots("/work/source", "/work/source/").is_err());
    assert!(check_separate_roots("/work/source", "/work/output").is_ok());
    assert!(check_separate_roots("/work/source", "/work/source-export").is_ok());
}

#[test]
fn inspect_reports_path_fields() {
    let png = png_bytes(4, 2, [1, 2, 3, 255]);
    let info = inspect("/src/HUD/icons/Button.PNG", "/src", &read(&png)).unwrap();
    assert_eq!(info.relative_path, "HUD/icons/Button.PNG");
    assert_eq!(info.directory, "HUD/icons");
    assert_eq!(info.filename, "Button.PNG");
    assert_eq!(info.extension, "png");
    assert_eq!(info.width, 4);
    assert_eq!(info.height, 2);
    assert_eq!(info.bytes, png.len() as u64);
    assert_eq!(info.path, "/src/HUD/icons/Button.PNG");
    let top = inspect("/src/logo.png", "/src", &read(&png)).unwrap();
    assert_eq!(top.directory, "");
    assert_eq!(top.relative_path, "logo.png");
}

#[test]
fn inspect_refusals() {
    let png = png_bytes(1, 1, [0, 0, 0, 0]);
    let outside = inspect("/other/logo.png", "/src", &read(&png)).err().unwrap();
    assert_eq!(outside, "Asset is outside source root");
    let unreadable = inspect("/src/a.png", "/src", &FileRead::Failed("denied".to_string())).err().unwrap();
    assert_eq!(unreadable, "denied");
    assert!(inspect("/src/a.png", "/src", &read(b"not an image")).is_err());
}

#[test]
fn alpha_is_compared_pixel_for_pixel() {
    let a = png_bytes(3, 3, [9, 9, 9, 128]);
    let b = png_bytes(3, 3, [200, 9, 9, 128]);
    let c = png_bytes(3, 3, [9, 9, 9, 127]);
    let d = png_bytes(3, 4, [9, 9, 9, 128]);
    assert!(alpha_matches(&read(&a), &read(&b), true, true));
    assert!(!alpha_matches(&read(&a), &read(&c), true, true));
    assert!(!alpha_matches(&read(&a), &read(&d), true, true));
    assert!(!alpha_matches(&read(&a), &read(&a), true, false));
    assert!(alpha_matches(&FileRead::Failed(String::new()), &FileRead::Failed(String::new()), false, false));
    assert!(!alpha_matches(&read(&a), &read(b"junk"), true, true));
}

fn item(relative: &str, status: &str, message: &str) -> WorkerItem {
    WorkerItem { relative_path: relative.to_string(), status: status.to_string(), message: message.to_string() }
}

#[test]
fn worker_results_are_validated() {
    let src = png_bytes(8, 8, [1, 1, 1, 200]);
    let same_alpha = png_bytes(8, 8, [50, 60, 70, 200]);
    let wrong_size = png_bytes(8, 9, [50, 60, 70, 200]);
    let ok = validated_worker_result("/in", "/out", item("ui/a.png", "complete", "Repainted"), &read(&src), &read(&same_alpha));
    assert!(ok.valid);
    assert_eq!(ok.status, "complete");
    assert_eq!(ok.message, "Repainted; exact size, path, name, extension, and pixel alpha validated");
    assert_eq!(ok.output_path, "/out/ui/a.png");

    let bad = validated_worker_result("/in", "/out", item("ui/a.png", "complete", "Repainted"), &read(&src), &read(&wrong_size));
    assert!(!bad.valid);
    assert_eq!(bad.status, "failed");
    assert_eq!(bad.message, "FLUX output failed structural validation");
    assert_eq!(bad.output_height, Some(9));

    let skipped = validated_worker_result("/in", "/out", item("ui/a.png", "cancelled", "Stopped"), &read(&src), &read(&same_alpha));
    assert_eq!(skipped.status, "cancelled");
    assert_eq!(skipped.message, "Stopped");
    assert_eq!(skipped.source_width, 8);
    assert_eq!(skipped.output_width, None);

    let unsafe_path = validated_worker_result("/in", "/out", item("../a.png", "complete", ""), &read(&src), &read(&src));
    assert_eq!(unsafe_path.status, "failed");
    assert_eq!(unsafe_path.output_path, "");
    assert_eq!(unsafe_path.message, "Unsafe relative path: ../a.png");

    let missing = validated_worker_result("/in", "/out", item("ui/a.png", "complete", ""), &read(&src), &FileRead::Failed("gone".to_string()));
    assert_eq!(missing.message, "gone");
    assert_eq!(missing.source_height, 8);
}

#[test]
fn inventory_orders_and_finds_collisions() {
    let png = png_bytes(2, 2, [0, 0, 0, 255]);
    let entries = vec![
        WalkEntry::File { path: "/r/b.png".to_string(), contents: read(&png) },
        WalkEntry::File { path: "/r/a.png".to_string(), contents: read(&png) },
        WalkEntry::Failed { path: "/r/locked".to_string(), message: "denied".to_string() },
        WalkEntry::File { path: "/r/A.png".to_string(), contents: read(&png) },
        WalkEntry::File { path: "/r/notes.txt".to_string(), contents: FileRead::Failed(String::new()) },
    ];
    let report = inventory_report("/r".to_string(), &entries);
    let order: Vec<&str> = report.assets.iter().map(|a| a.relative_path.as_str()).collect();
    assert_eq!(order, vec!["a.png", "A.png", "b.png"]);
    assert_eq!(report.collisions, vec![vec!["a.png".to_string(), "A.png".to_string()]]);
    assert_eq!(report.total_files_seen, 4);
    assert_eq!(report.issues.len(), 1);
    assert_eq!(report.issues[0].kind, "read-error");
    assert_eq!(report.root, "/r");
}
