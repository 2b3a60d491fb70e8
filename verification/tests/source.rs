use metal_infer::error::ModelError;
use metal_infer::source::{
    hugging_face_cache_root, hugging_face_model_id, infer_model_id, newest_snapshot,
    usable_revision, Answer, Locator, ModelPath, ModelSource, Question, Snapshot,
};

fn path(text: &str) -> ModelPath {
    ModelPath::from_text(text)
}

fn text(path: &ModelPath) -> String {
    path.to_text().expect("the path is text")
}

#[test]
fn recognizes_hugging_face_repository_ids() {
    assert_eq!(
        hugging_face_model_id(&path("Qwen/Qwen3-8B")),
        Some("Qwen/Qwen3-8B".into())
    );
    assert_eq!(hugging_face_model_id(&path("local-model")), None);
    assert_eq!(hugging_face_model_id(&path("a/b/c")), None);
}

#[test]
fn infers_the_model_id_from_the_cache_layout() {
    assert_eq!(
        infer_model_id(&path(
            "/cache/hub/models--Qwen--Qwen3-0.6B/snapshots/c1899de2"
        )),
        "Qwen/Qwen3-0.6B"
    );
    assert_eq!(infer_model_id(&path("/models/my-qwen")), "my-qwen");
}

#[test]
fn an_identifier_has_two_parts_that_are_not_empty() {
    assert_eq!(hugging_face_model_id(&path("/name")), None);
    assert_eq!(hugging_face_model_id(&path("owner/")), None);
    assert_eq!(
        hugging_face_model_id(&ModelPath {
            segments: vec![Some("owner".into()), None],
        }),
        None
    );
}

#[test]
fn a_directory_without_a_name_falls_back() {
    assert_eq!(infer_model_id(&path("/models/my-qwen/")), "my-qwen");
    assert_eq!(infer_model_id(&path("/models/./my-qwen/.")), "my-qwen");
    assert_eq!(infer_model_id(&path("/models/..")), "qwen3");
    assert_eq!(infer_model_id(&path("/")), "qwen3");
    assert_eq!(infer_model_id(&path(".")), "qwen3");
    assert_eq!(
        infer_model_id(&ModelPath {
            segments: vec![Some("models".into()), None],
        }),
        "qwen3"
    );
    assert_eq!(infer_model_id(&path("/models--a---b/x")), "a/-b");
}

#[test]
fn paths_join_below_each_other() {
    assert_eq!(text(&path("/cache").join("hub")), "/cache/hub");
    assert_eq!(text(&path("/cache/").join("hub")), "/cache/hub");
    assert_eq!(text(&path("").join("hub")), "hub");
    assert_eq!(text(&path("/").join("a/b")), "/a/b");
}

#[test]
fn the_cache_root_follows_the_variables() {
    let root = |hub: Option<&str>, hf: Option<&str>, home: Option<&str>| {
        hugging_face_cache_root(hub.map(path), hf.map(path), home.map(path)).map(|root| text(&root))
    };
    assert_eq!(root(Some("/hub"), Some("/hf"), Some("/home")), Some("/hub".into()));
    assert_eq!(root(None, Some("/hf"), Some("/home")), Some("/hf/hub".into()));
    assert_eq!(
        root(None, None, Some("/home")),
        Some("/home/.cache/huggingface/hub".into())
    );
    assert_eq!(root(None, None, None), None);
}

#[test]
fn a_revision_is_one_directory_name() {
    assert_eq!(usable_revision(" c1899de2\n"), Some("c1899de2".into()));
    assert_eq!(usable_revision("  \n"), None);
    assert_eq!(usable_revision("a/b"), None);
    assert_eq!(usable_revision("a..b"), None);
    assert_eq!(usable_revision("a.b.c"), Some("a.b.c".into()));
}

#[test]
fn the_last_of_the_newest_snapshots_wins() {
    assert_eq!(newest_snapshot(&vec![]), None);
    assert_eq!(newest_snapshot(&vec![None, None]), Some(1));
    assert_eq!(newest_snapshot(&vec![Some(3), Some(7), Some(7), None]), Some(2));
    assert_eq!(newest_snapshot(&vec![None, Some(-5)]), Some(1));
}

#[test]
fn a_directory_is_its_own_source() {
    let locator = Locator::new(path("/models/my-qwen"), None);
    let locator = locator.answered(Answer::Directory(true));
    let located = match locator.question {
        Question::Nothing { outcome } => outcome,
        _ => panic!("the search is over"),
    };
    let source = ModelSource::resolve(&path("/models/my-qwen"), located).expect("located");
    assert_eq!(text(&source.directory), "/models/my-qwen");
    assert_eq!(source.model_id, "my-qwen");
}

#[test]
fn a_repository_is_found_by_its_revision() {
    let model = path("Qwen/Qwen3-0.6B");
    let locator = Locator::new(path("Qwen/Qwen3-0.6B"), Some(path("/hub")));
    let locator = locator.answered(Answer::Directory(false));
    match &locator.question {
        Question::Revision { repository } => {
            assert_eq!(text(repository), "/hub/models--Qwen--Qwen3-0.6B");
        }
        _ => panic!("the reference is read"),
    }
    let locator = locator.answered(Answer::Revision(Some("c1899de2\n".into())));
    match &locator.question {
        Question::Snapshot { snapshot } => assert_eq!(
            text(snapshot),
            "/hub/models--Qwen--Qwen3-0.6B/snapshots/c1899de2"
        ),
        _ => panic!("the snapshot is checked"),
    }
    let locator = locator.answered(Answer::Snapshot {
        has_config: true,
        has_tokenizer: true,
    });
    let located = match locator.question {
        Question::Nothing { outcome } => outcome,
        _ => panic!("the search is over"),
    };
    let source = ModelSource::resolve(&model, located).expect("located");
    assert_eq!(source.model_id, "Qwen/Qwen3-0.6B");
    assert_eq!(
        infer_model_id(&source.directory),
        "Qwen/Qwen3-0.6B",
        "the cache layout carries the repository name"
    );
}

#[test]
fn a_repository_without_a_reference_uses_its_newest_snapshot() {
    let locator = Locator::new(path("a/b"), Some(path("/hub")));
    let locator = locator.answered(Answer::Directory(false));
    let locator = locator.answered(Answer::Revision(None));
    match &locator.question {
        Question::Snapshots { directory } => {
            assert_eq!(text(directory), "/hub/models--a--b/snapshots");
        }
        _ => panic!("the snapshots are listed"),
    }
    let locator = locator.answered(Answer::Snapshots(Some(vec![
        Snapshot { path: path("/hub/x"), modified: Some(2) },
        Snapshot { path: path("/hub/y"), modified: Some(1) },
    ])));
    match &locator.question {
        Question::Snapshot { snapshot } => assert_eq!(text(snapshot), "/hub/x"),
        _ => panic!("the snapshot is checked"),
    }
    let locator = locator.answered(Answer::Snapshot {
        has_config: true,
        has_tokenizer: false,
    });
    match locator.question {
        Question::Nothing { outcome } => {
            assert!(matches!(outcome, Err(ModelError::ModelNotCached)));
        }
        _ => panic!("the search is over"),
    }
}

fn failure(model: ModelPath, cache: Option<ModelPath>, answers: Vec<Answer>) -> ModelError {
    let mut locator = Locator::new(model, cache);
    for answer in answers {
        locator = locator.answered(answer);
    }
    match locator.question {
        Question::Nothing { outcome: Err(error) } => error,
        _ => panic!("the search has failed"),
    }
}

#[test]
fn a_model_that_is_nowhere_is_reported() {
    assert!(matches!(
        failure(path("local-model"), None, vec![Answer::Directory(false)]),
        ModelError::ModelDirectoryMissing
    ));
    assert!(matches!(
        failure(
            ModelPath { segments: vec![None] },
            None,
            vec![Answer::Directory(false)]
        ),
        ModelError::NonUtf8ModelPath
    ));
    assert!(matches!(
        failure(path("a/b"), None, vec![Answer::Directory(false)]),
        ModelError::HuggingFaceCacheMissing
    ));
    assert!(matches!(
        failure(
            path("a/b"),
            Some(path("/hub")),
            vec![
                Answer::Directory(false),
                Answer::Revision(None),
                Answer::Snapshots(None)
            ]
        ),
        ModelError::ModelNotCached
    ));
    assert!(matches!(
        failure(
            path("a/b"),
            Some(path("/hub")),
            vec![Answer::Directory(false), Answer::Revision(None), Answer::Unlistable]
        ),
        ModelError::Io
    ));
}
