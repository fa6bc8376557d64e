use wsl_clip::orchestrator::{plan, Action, PlanError};
use wsl_clip::paths::InputPath;

const PNG: [u8; 12] = [0x89, 0x50, 0x4E, 0x47, 0x0D, 0x0A, 0x1A, 0x0A, 0, 0, 0, 13];

fn text(path: &str) -> InputPath {
    InputPath::new(path, Some("txt"))
}

#[test]
fn without_paths_the_run_streams_standard_input() {
    assert_eq!(plan(&Vec::new(), &Vec::new()), Ok(Action::StreamStdin));
    assert_eq!(plan(&Vec::new(), &vec![None]), Ok(Action::StreamStdin));
}

#[test]
fn one_image_is_copied_as_an_image() {
    let paths = vec![InputPath::new("a.png", Some("png"))];
    assert_eq!(
        plan(&paths, &vec![Some(PNG.to_vec())]),
        Ok(Action::CopyImage(InputPath::new("a.png", Some("png"))))
    );
}

#[test]
fn images_and_assets_are_copied_as_files() {
    let images = vec![InputPath::new("a.png", Some("png")), InputPath::new("b.png", Some("png"))];
    assert_eq!(
        plan(&images, &vec![Some(PNG.to_vec()), Some(PNG.to_vec())]),
        Ok(Action::CopyFiles(images.clone()))
    );
    let assets = vec![InputPath::new("a.zip", Some("zip")), InputPath::new("b.PDF", Some("PDF"))];
    assert_eq!(plan(&assets, &vec![None, None]), Ok(Action::CopyFiles(assets.clone())));
}

#[test]
fn texts_are_streamed() {
    let paths = vec![text("a.txt"), text("b.txt")];
    assert_eq!(
        plan(&paths, &vec![Some(b"hello".to_vec()), Some(Vec::new())]),
        Ok(Action::StreamFiles(paths.clone()))
    );
}

#[test]
fn a_mixed_batch_ends_the_run() {
    let paths = vec![text("a.txt"), InputPath::new("b.png", Some("png")), text("c.txt")];
    let contents = vec![Some(b"a".to_vec()), Some(PNG.to_vec()), Some(b"c".to_vec())];
    assert_eq!(
        plan(&paths, &contents),
        Err(PlanError::Mixed { image_count: 1, file_count: 0, text_count: 2 })
    );
}

#[test]
fn the_first_unreadable_input_ends_the_run() {
    let paths = vec![text("a.txt"), text("b.txt"), text("c.txt")];
    let contents = vec![Some(b"a".to_vec()), None, None];
    assert_eq!(plan(&paths, &contents), Err(PlanError::Unreadable { index: 1 }));
}
