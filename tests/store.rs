use haret::api::{ElementType, VrApiReq, VrApiRsp};
use haret::namespace::{parent_path, path_key, NamespaceStore};

fn create(path: &str, ty: ElementType) -> VrApiReq {
    VrApiReq::Create { path: path.to_string(), ty }
}

fn put(path: &str, data: &[u8], cas_tag: Option<u64>) -> VrApiReq {
    VrApiReq::Put { path: path.to_string(), data: data.to_vec(), cas_tag }
}

fn get(path: &str) -> VrApiReq {
    VrApiReq::Get { path: path.to_string(), cas: true }
}

fn tag_of(store: &mut NamespaceStore, path: &str) -> u64 {
    match store.apply(&get(path)) {
        VrApiRsp::Element { cas_tag: Some(t), .. } => t,
        other => panic!("unexpected reply {:?}", other),
    }
}

#[test]
fn create_twice_reports_existing_element() {
    let mut store = NamespaceStore::new();
    assert_eq!(store.apply(&create("/foo", ElementType::Binary)), VrApiRsp::Success);
    assert_eq!(store.apply(&create("/foo", ElementType::Binary)), VrApiRsp::ElementAlreadyExistsError);
}

#[test]
fn put_with_current_tag_succeeds_and_stale_tag_fails() {
    let mut store = NamespaceStore::new();
    assert_eq!(store.apply(&create("/foo", ElementType::Binary)), VrApiRsp::Success);
    assert_eq!(store.apply(&put("/foo", b"data", None)), VrApiRsp::Success);
    let t1 = tag_of(&mut store, "/foo");
    assert_eq!(store.apply(&put("/foo", b"more", Some(t1))), VrApiRsp::Success);
    let t2 = tag_of(&mut store, "/foo");
    assert_ne!(t1, t2);
    assert_eq!(
        store.apply(&put("/foo", b"x", Some(t1))),
        VrApiRsp::CasFailedError { path: "/foo".to_string(), expected: t1, actual: t2 }
    );
    assert_eq!(
        store.apply(&VrApiReq::Get { path: "/foo".to_string(), cas: false }),
        VrApiRsp::Element { data: b"more".to_vec(), cas_tag: None }
    );
}

#[test]
fn create_without_parent_fails() {
    let mut store = NamespaceStore::new();
    assert_eq!(store.apply(&create("/a/b", ElementType::Binary)), VrApiRsp::ParentNotFoundError);
    assert_eq!(store.apply(&create("a", ElementType::Binary)), VrApiRsp::ParentNotFoundError);
    assert_eq!(store.apply(&create("/a", ElementType::List)), VrApiRsp::Success);
    assert_eq!(store.apply(&create("/a/b", ElementType::Binary)), VrApiRsp::Success);
}

#[test]
fn missing_elements_are_reported() {
    let mut store = NamespaceStore::new();
    let missing = VrApiRsp::ElementNotFoundError("/x".to_string());
    assert_eq!(store.apply(&put("/x", b"d", None)), missing);
    assert_eq!(store.apply(&VrApiReq::Delete { path: "/x".to_string(), cas_tag: None }), missing);
    assert_eq!(store.apply(&get("/x")), missing);
    assert_eq!(store.apply(&VrApiReq::List { path: "/x".to_string() }), missing);
    assert_eq!(store.version(), 0);
}

#[test]
fn list_gives_children_in_creation_order() {
    let mut store = NamespaceStore::new();
    assert_eq!(store.apply(&create("/b", ElementType::Binary)), VrApiRsp::Success);
    assert_eq!(store.apply(&create("/a", ElementType::UnorderedSet)), VrApiRsp::Success);
    assert_eq!(store.apply(&create("/a/c", ElementType::Queue)), VrApiRsp::Success);
    assert_eq!(
        store.apply(&VrApiReq::List { path: "/".to_string() }),
        VrApiRsp::KeyList { keys: vec!["b".to_string(), "a".to_string()] }
    );
    assert_eq!(
        store.apply(&VrApiReq::List { path: "/a".to_string() }),
        VrApiRsp::KeyList { keys: vec!["c".to_string()] }
    );
    assert_eq!(
        store.apply(&VrApiReq::List { path: "/b".to_string() }),
        VrApiRsp::KeyList { keys: vec![] }
    );
}

#[test]
fn delete_checks_tag_and_removes_subtree() {
    let mut store = NamespaceStore::new();
    assert_eq!(store.apply(&create("/a", ElementType::Binary)), VrApiRsp::Success);
    assert_eq!(store.apply(&create("/a/b", ElementType::Binary)), VrApiRsp::Success);
    assert_eq!(store.apply(&create("/ab", ElementType::Binary)), VrApiRsp::Success);
    let t = tag_of(&mut store, "/a");
    assert_eq!(
        store.apply(&VrApiReq::Delete { path: "/a".to_string(), cas_tag: Some(t + 7) }),
        VrApiRsp::CasFailedError { path: "/a".to_string(), expected: t + 7, actual: t }
    );
    assert_eq!(store.apply(&VrApiReq::Delete { path: "/a".to_string(), cas_tag: Some(t) }), VrApiRsp::Success);
    assert_eq!(store.apply(&get("/a/b")), VrApiRsp::ElementNotFoundError("/a/b".to_string()));
    assert_eq!(
        store.apply(&VrApiReq::List { path: "/".to_string() }),
        VrApiRsp::KeyList { keys: vec!["ab".to_string()] }
    );
}

#[test]
fn tags_count_mutations() {
    let mut store = NamespaceStore::new();
    assert_eq!(store.apply(&create("/foo", ElementType::Binary)), VrApiRsp::Success);
    assert_eq!(tag_of(&mut store, "/foo"), 1);
    assert_eq!(store.apply(&put("/foo", b"1", None)), VrApiRsp::Success);
    assert_eq!(tag_of(&mut store, "/foo"), 2);
    assert_eq!(store.version(), 2);
}

#[test]
fn same_operations_give_same_store() {
    let ops = vec![
        create("/a", ElementType::Binary),
        put("/a", b"v", None),
        create("/a/b", ElementType::List),
        VrApiReq::Delete { path: "/a/b".to_string(), cas_tag: None },
    ];
    let mut s1 = NamespaceStore::new();
    let mut s2 = NamespaceStore::new();
    for op in &ops {
        assert_eq!(s1.apply(op), s2.apply(op));
    }
    assert_eq!(s1.apply(&get("/a")), s2.apply(&get("/a")));
}

#[test]
fn paths_split_into_parent_and_key() {
    assert_eq!(parent_path(&"/a/b".to_string()), Some("/a".to_string()));
    assert_eq!(parent_path(&"/a".to_string()), Some("/".to_string()));
    assert_eq!(parent_path(&"a".to_string()), None);
    assert_eq!(path_key(&"/a/bc".to_string()), "bc".to_string());
}

#[test]
fn paths_with_empty_components_are_refused() {
    let mut store = NamespaceStore::new();
    let invalid = VrApiRsp::Error { msg: "invalid path".to_string() };
    assert_eq!(store.apply(&create("/x", ElementType::Binary)), VrApiRsp::Success);
    assert_eq!(store.apply(&create("//x", ElementType::Binary)), invalid);
    assert_eq!(store.apply(&create("/x/", ElementType::Binary)), invalid);
    assert_eq!(store.apply(&create("/x//y", ElementType::Binary)), VrApiRsp::ParentNotFoundError);
    assert_eq!(
        store.apply(&VrApiReq::List { path: "/".to_string() }),
        VrApiRsp::KeyList { keys: vec!["x".to_string()] }
    );
    assert_eq!(store.version(), 1);
}
