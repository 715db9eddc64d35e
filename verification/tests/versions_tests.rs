use aether::dsl::Command;
use aether::edit::{plan_edit_atomically, EditStep};
use aether::refs::{AetherError, Ref, RefKind};
use aether::registry::{Asset, AssetKind, RefRegistry};
use aether::versions::VersionStore;

fn asset(r: Ref, kind: AssetKind) -> Asset {
    Asset { r, kind, path: format!("{}.png", r.to_string()), hash: "h".to_string(), metadata: "{}".to_string() }
}

fn new_ref(step: &EditStep) -> Ref {
    match step {
        EditStep::Canvas { new_ref } | EditStep::DrawText { new_ref, .. } => *new_ref,
        other => panic!("unexpected {:?}", other),
    }
}

#[test]
fn refused_edit_gives_its_reference_back() {
    let mut reg = RefRegistry::new();
    let canvas = Command::Canvas { width: 100, height: 100, color: "blue".to_string() };
    let step = plan_edit_atomically(&mut reg, &canvas, true).unwrap().unwrap();
    let c = new_ref(&step);
    reg.register(c, asset(c, AssetKind::Image)).unwrap();
    assert_eq!(c, Ref { kind: RefKind::Image, id: 1 });

    let trim = Command::Trim { r: c, start: "0.0".to_string(), end: "1.0".to_string() };
    assert_eq!(
        plan_edit_atomically(&mut reg, &trim, true).unwrap().unwrap_err(),
        AetherError::InvalidCommand("Cannot trim image asset".to_string())
    );
    assert_eq!(reg.list_assets().len(), 1);

    let draw = Command::DrawText {
        r: c,
        text: "Hello".to_string(),
        font: "Roboto".to_string(),
        size: "12".to_string(),
        x: 10,
        y: 10,
    };
    let step = plan_edit_atomically(&mut reg, &draw, true).unwrap().unwrap();
    assert_eq!(new_ref(&step).id, 2);
}

#[test]
fn registry_copies_and_replaced_assets() {
    let mut reg = RefRegistry::new();
    let a = reg.allocate(RefKind::Image);
    reg.register(a, asset(a, AssetKind::Image)).unwrap();
    let copy = reg.duplicate();
    assert_eq!(copy.resolve(&a).unwrap(), asset(a, AssetKind::Image));
    let b = Ref { kind: RefKind::Video, id: 7 };
    let mut later = asset(b, AssetKind::Video);
    later.hash = "second".to_string();
    reg.replace_assets(&vec![asset(b, AssetKind::Video), later.clone()]);
    assert!(reg.resolve(&a).is_err());
    assert_eq!(reg.resolve(&b).unwrap(), later);
    assert_eq!(reg.allocate(RefKind::Image).id, 2);
}

#[test]
fn new_session_is_on_main_at_no_commit() {
    let v: VersionStore<u32> = VersionStore::new();
    assert_eq!(v.branch(), "main");
    assert_eq!(v.commit(), "");
    assert!(v.history().is_empty());
    assert_eq!(v.state(), None);
}

#[test]
fn undo_and_redo_move_along_the_history() {
    let mut v: VersionStore<u32> = VersionStore::new();
    assert_eq!(v.undo().unwrap_err(), AetherError::OperationFailed("Already at first history state".to_string()));
    v.record("c1".to_string(), 1);
    v.record("c2".to_string(), 2);
    assert_eq!(v.state(), Some(&2));
    assert_eq!(v.undo().unwrap(), "Successfully rolled back project to state 'c1'");
    assert_eq!(v.state(), Some(&1));
    assert_eq!(v.undo().unwrap(), "Successfully rolled back project to state ''");
    assert_eq!(v.state(), None);
    assert_eq!(v.redo().unwrap(), "Successfully fast-forwarded project to state 'c1'");
    assert_eq!(v.redo().unwrap(), "Successfully fast-forwarded project to state 'c2'");
    assert_eq!(v.redo().unwrap_err(), AetherError::OperationFailed("Already at newest history state".to_string()));
    assert_eq!(v.history().len(), 2);
    assert_eq!(v.history()[1].parent, Some("c1".to_string()));
}

#[test]
fn branches_keep_their_own_heads() {
    let mut v: VersionStore<&str> = VersionStore::new();
    v.record("m1".to_string(), "canvas");
    assert_eq!(v.create_branch("feature-edit").unwrap(), "Branch 'feature-edit' created successfully");
    assert_eq!(
        v.create_branch("feature-edit").unwrap_err(),
        AetherError::OperationFailed("Branch 'feature-edit' already exists".to_string())
    );
    assert_eq!(v.checkout("feature-edit").unwrap(), "Switched to branch or commit 'feature-edit'");
    assert_eq!(v.branch(), "feature-edit");
    v.record("f1".to_string(), "canvas+text");
    assert_eq!(v.checkout("main").unwrap(), "Switched to branch or commit 'main'");
    assert_eq!(v.commit(), "m1");
    assert_eq!(v.state(), Some(&"canvas"));
    v.checkout("feature-edit").unwrap();
    assert_eq!(v.state(), Some(&"canvas+text"));
    assert_eq!(v.saved_state("m1"), Some(&"canvas"));
}

#[test]
fn checkout_of_a_commit_detaches() {
    let mut v: VersionStore<u8> = VersionStore::new();
    v.record("a".to_string(), 1);
    v.record("b".to_string(), 2);
    assert_eq!(v.checkout("a").unwrap(), "Switched to branch or commit 'a'");
    assert_eq!(v.branch(), "detached");
    assert_eq!(v.state(), Some(&1));
    assert_eq!(
        v.checkout("nope").unwrap_err(),
        AetherError::OperationFailed("Branch or commit 'nope' not found".to_string())
    );
    assert_eq!(v.commit(), "a");
}

#[test]
fn recording_a_known_commit_replaces_it() {
    let mut v: VersionStore<u8> = VersionStore::new();
    v.record("a".to_string(), 1);
    v.record("b".to_string(), 2);
    v.undo().unwrap();
    v.record("b".to_string(), 3);
    assert_eq!(v.history().len(), 2);
    assert_eq!(v.state(), Some(&3));
    assert_eq!(v.history()[1].commit, "b");
}
