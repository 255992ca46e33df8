use canvas_downloader::path::{FilePath, PathStep};

#[test]
fn paths_are_lists_of_steps() {
    assert!(FilePath::destination().steps.is_empty());
    let path = FilePath::destination().join("a").join("b").parent().join("c");
    assert_eq!(
        path.steps,
        vec![
            PathStep::Join("a".to_string()),
            PathStep::Join("b".to_string()),
            PathStep::Parent,
            PathStep::Join("c".to_string()),
        ]
    );
    assert_eq!(path.clone(), path);
}
