use wsl_clip::classifier::ClipboardStrategy;
use wsl_clip::dispatch::{
    decide, decide_tally, duplicate_paths, mixed_content_message, tally, BatchTally,
    DispatchOutcome,
};
use wsl_clip::paths::InputPath;

fn paths(names: &[&str]) -> Vec<InputPath> {
    names.iter().map(|n| InputPath::new(n, None)).collect()
}

fn counts(image_count: usize, file_count: usize, text_count: usize) -> BatchTally {
    BatchTally { image_count, file_count, text_count }
}

#[test]
fn one_image_and_one_path_is_a_single_image() {
    let batch = paths(&["a.png"]);
    assert_eq!(
        decide_tally(&batch, &counts(1, 0, 0)),
        DispatchOutcome::SingleImage(InputPath::new("a.png", None))
    );
}

#[test]
fn two_images_are_file_objects() {
    let batch = paths(&["a.png", "b.png"]);
    assert_eq!(
        decide_tally(&batch, &counts(2, 0, 0)),
        DispatchOutcome::MultiAsFileObjects(paths(&["a.png", "b.png"]))
    );
}

#[test]
fn an_image_and_a_file_are_rejected() {
    let batch = paths(&["a.png", "b.zip"]);
    assert_eq!(
        decide_tally(&batch, &counts(1, 1, 0)),
        DispatchOutcome::RejectedMixed { image_count: 1, file_count: 1, text_count: 0 }
    );
}

#[test]
fn one_stray_image_among_texts_rejects_the_batch() {
    let batch = paths(&["a", "b", "c", "d"]);
    assert_eq!(
        decide_tally(&batch, &counts(1, 0, 3)),
        DispatchOutcome::RejectedMixed { image_count: 1, file_count: 0, text_count: 3 }
    );
    assert_eq!(
        decide_tally(&batch, &counts(0, 2, 2)),
        DispatchOutcome::RejectedMixed { image_count: 0, file_count: 2, text_count: 2 }
    );
    assert_eq!(
        decide_tally(&batch, &counts(1, 1, 1)),
        DispatchOutcome::RejectedMixed { image_count: 1, file_count: 1, text_count: 1 }
    );
}

#[test]
fn files_are_file_objects() {
    assert_eq!(
        decide_tally(&paths(&["a.zip"]), &counts(0, 1, 0)),
        DispatchOutcome::MultiAsFileObjects(paths(&["a.zip"]))
    );
    assert_eq!(
        decide_tally(&paths(&["b", "a"]), &counts(0, 2, 0)),
        DispatchOutcome::MultiAsFileObjects(paths(&["b", "a"]))
    );
}

#[test]
fn texts_and_the_empty_batch_fall_through() {
    assert_eq!(decide_tally(&paths(&["a", "b"]), &counts(0, 0, 2)), DispatchOutcome::FallThroughText);
    assert_eq!(decide_tally(&Vec::new(), &counts(0, 0, 0)), DispatchOutcome::FallThroughText);
    assert_eq!(decide(&Vec::new(), &Vec::new()), DispatchOutcome::FallThroughText);
}

#[test]
fn an_image_with_another_number_of_paths_than_one_is_a_file_object() {
    assert_eq!(
        decide_tally(&Vec::new(), &counts(1, 0, 0)),
        DispatchOutcome::MultiAsFileObjects(Vec::new())
    );
}

#[test]
fn verdicts_are_counted() {
    let verdicts = vec![
        ClipboardStrategy::Text,
        ClipboardStrategy::Image,
        ClipboardStrategy::Text,
        ClipboardStrategy::File,
        ClipboardStrategy::Text,
    ];
    assert_eq!(tally(&verdicts), counts(1, 1, 3));
    assert_eq!(tally(&Vec::new()), counts(0, 0, 0));
}

#[test]
fn the_order_of_the_inputs_decides_nothing() {
    let forward = paths(&["a.png", "b.txt", "c.txt"]);
    let backward = paths(&["c.txt", "b.txt", "a.png"]);
    let v_forward =
        vec![ClipboardStrategy::Image, ClipboardStrategy::Text, ClipboardStrategy::Text];
    let v_backward =
        vec![ClipboardStrategy::Text, ClipboardStrategy::Text, ClipboardStrategy::Image];
    let rejected = DispatchOutcome::RejectedMixed { image_count: 1, file_count: 0, text_count: 2 };
    assert_eq!(decide(&forward, &v_forward), rejected);
    assert_eq!(decide(&backward, &v_backward), rejected);

    let images = vec![ClipboardStrategy::Image, ClipboardStrategy::Image];
    assert_eq!(
        decide(&paths(&["x", "y"]), &images),
        DispatchOutcome::MultiAsFileObjects(paths(&["x", "y"]))
    );
    assert_eq!(
        decide(&paths(&["y", "x"]), &images),
        DispatchOutcome::MultiAsFileObjects(paths(&["y", "x"]))
    );
}

#[test]
fn decide_goes_by_the_verdicts() {
    assert_eq!(
        decide(&paths(&["a.png"]), &vec![ClipboardStrategy::Image]),
        DispatchOutcome::SingleImage(InputPath::new("a.png", None))
    );
    assert_eq!(
        decide(&paths(&["a", "b"]), &vec![ClipboardStrategy::File, ClipboardStrategy::File]),
        DispatchOutcome::MultiAsFileObjects(paths(&["a", "b"]))
    );
    assert_eq!(
        decide(&paths(&["a", "b"]), &vec![ClipboardStrategy::Text, ClipboardStrategy::Text]),
        DispatchOutcome::FallThroughText
    );
}

#[test]
fn paths_are_copied_in_order() {
    let batch = vec![InputPath::new("b.py", Some("py")), InputPath::new("a", None)];
    assert_eq!(duplicate_paths(&batch), batch);
}

#[test]
fn the_rejection_names_the_counts() {
    assert_eq!(
        mixed_content_message(1, 2, 10),
        "Mixed content detected! (1 images, 2 files/assets, 10 text). Please run separate commands for each type."
    );
    assert_eq!(
        mixed_content_message(0, 0, 0),
        "Mixed content detected! (0 images, 0 files/assets, 0 text). Please run separate commands for each type."
    );
}
