use s3mgr::store::MemStore;
use s3mgr::transfer::is_exists;
use s3mgr::uploadplan::apply_upload_actions;
use s3mgr::uploadplan::plan_upload_dir;
use s3mgr::uploadplan::LocalTree;
use s3mgr::uploadplan::UploadAction;
use s3mgr::keypath::upload_root_destination;

fn action_key(a: &UploadAction) -> String {
    match a {
        UploadAction::PutMarker { key } => key.clone(),
        UploadAction::UploadFile { local: _, key } => key.clone(),
    }
}

fn sample_tree() -> LocalTree {
    LocalTree {
        name: "root".to_string(),
        files: vec!["a.txt".to_string()],
        subdirs: vec![LocalTree {
            name: "sub".to_string(),
            files: vec!["b.txt".to_string()],
            subdirs: vec![],
        }],
    }
}

#[test]
fn recursive_upload_with_unset_destination() {
    let tree = sample_tree();
    let dest = upload_root_destination(&None, tree.name.as_str());
    assert_eq!(dest, "root");
    let mut plan: Vec<UploadAction> = Vec::new();
    plan_upload_dir(&tree, &Some(dest), "", "", &mut plan);
    let keys: Vec<String> = plan.iter().map(action_key).collect();
    assert_eq!(keys, vec!["root/", "root/a.txt", "root/sub/", "root/sub/b.txt"]);
    // the file actions carry the local paths relative to the walked root
    let locals: Vec<String> = plan
        .iter()
        .filter_map(|a| match a {
            UploadAction::UploadFile { local, key: _ } => Some(local.clone()),
            UploadAction::PutMarker { key: _ } => None,
        })
        .collect();
    assert_eq!(locals, vec!["a.txt", "sub/b.txt"]);
    // applying the plan leaves exactly those keys in the store
    let mut store = MemStore::new();
    apply_upload_actions(&mut store, &plan);
    for key in ["root/", "root/a.txt", "root/sub/", "root/sub/b.txt"] {
        assert_eq!(is_exists(&store, key).unwrap(), true, "{key}");
    }
    assert_eq!(store.list("").len(), 4);
}

#[test]
fn recursive_upload_into_directory_destination() {
    let tree = sample_tree();
    let dest = upload_root_destination(&Some("backup/".to_string()), tree.name.as_str());
    assert_eq!(dest, "backup/root");
    let mut plan: Vec<UploadAction> = Vec::new();
    plan_upload_dir(&tree, &Some(dest), "", "", &mut plan);
    let keys: Vec<String> = plan.iter().map(action_key).collect();
    assert_eq!(
        keys,
        vec!["backup/root/", "backup/root/a.txt", "backup/root/sub/", "backup/root/sub/b.txt"]
    );
}

#[test]
fn recursive_upload_renaming_destination() {
    let tree = sample_tree();
    // a bare destination is taken verbatim, renaming the tree root
    let dest = upload_root_destination(&Some("renamed".to_string()), tree.name.as_str());
    assert_eq!(dest, "renamed");
    let mut plan: Vec<UploadAction> = Vec::new();
    plan_upload_dir(&tree, &Some(dest), "", "", &mut plan);
    let keys: Vec<String> = plan.iter().map(action_key).collect();
    assert_eq!(keys, vec!["renamed/", "renamed/a.txt", "renamed/sub/", "renamed/sub/b.txt"]);
}

#[test]
fn empty_prefix_writes_no_marker() {
    let tree = LocalTree {
        name: "top".to_string(),
        files: vec!["only.txt".to_string()],
        subdirs: vec![],
    };
    let mut plan: Vec<UploadAction> = Vec::new();
    plan_upload_dir(&tree, &Some(String::new()), "", "", &mut plan);
    let keys: Vec<String> = plan.iter().map(action_key).collect();
    assert_eq!(keys, vec!["only.txt"]);
}
