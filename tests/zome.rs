use my_zome::containment::{
    create_my_child_entry, create_my_parent_entry, get_children, get_entry, get_entry_history,
    update_my_child_entry, update_my_parent_entry,
};
use my_zome::entries::{LinkKind, MyChildEntry, MyEntry, MyParentEntry, Record, ZomeError};
use my_zome::lineage::{
    create_my_entry, get_linked_my_entries, get_my_entry, lineage_root, link_my_entries, plan_update,
    update_my_entry,
};
use my_zome::schema::{init, my_child_entry_def, my_entry_def, my_parent_entry_def, validate_agent, Sharing};
use my_zome::store::Dht;

fn my(content: &str) -> MyEntry {
    MyEntry::new(content.to_string())
}

fn content_at(dht: &Dht, a: u64) -> (String, Option<u64>) {
    match get_my_entry(dht, a).unwrap() {
        Some(Record::My(e)) => (e.content, e.root),
        _ => panic!("no MyEntry at {}", a),
    }
}

#[test]
fn get_after_create_gives_content_and_first_revision_as_root() {
    let mut dht = Dht::new();
    let a = create_my_entry(&mut dht, my("hello")).unwrap();
    assert_eq!(a, 1);
    assert_eq!(content_at(&dht, a), ("hello".to_string(), Some(0)));
    assert_eq!(dht.revisions.len(), 2);
    assert_eq!(get_entry_history(&dht, a).unwrap(), Some(vec![0, 1]));
}

#[test]
fn update_with_same_content_writes_nothing() {
    let mut dht = Dht::new();
    let a = create_my_entry(&mut dht, my("same")).unwrap();
    let r = update_my_entry(&mut dht, my("same"), a).unwrap();
    assert_eq!(r, a);
    assert_eq!(dht.revisions.len(), 2);
}

#[test]
fn update_with_new_content_writes_a_revision() {
    let mut dht = Dht::new();
    let a = create_my_entry(&mut dht, my("one")).unwrap();
    let b = update_my_entry(&mut dht, my("two"), a).unwrap();
    assert_eq!(b, 2);
    assert_eq!(content_at(&dht, b), ("two".to_string(), Some(0)));
    assert_eq!(content_at(&dht, a), ("one".to_string(), Some(0)));
}

#[test]
fn updates_keep_the_lineage_root() {
    let mut dht = Dht::new();
    create_my_entry(&mut dht, my("other")).unwrap();
    let mut a = create_my_entry(&mut dht, my("v0")).unwrap();
    for text in ["v1", "v2", "v2", "v3"] {
        a = update_my_entry(&mut dht, my(text), a).unwrap();
        assert_eq!(content_at(&dht, a).1, Some(2));
    }
    assert_eq!(content_at(&dht, a).0, "v3");
    assert_eq!(get_entry_history(&dht, a).unwrap(), Some(vec![2, 3, 4, 5, 6]));
}

#[test]
fn links_are_directed() {
    let mut dht = Dht::new();
    let a = create_my_entry(&mut dht, my("a")).unwrap();
    let b = create_my_entry(&mut dht, my("b")).unwrap();
    let a2 = update_my_entry(&mut dht, my("a, later"), a).unwrap();
    let l = link_my_entries(&mut dht, a2, b).unwrap();
    assert_eq!(l, 0);
    assert_eq!(dht.links.len(), 1);
    let from_a = get_linked_my_entries(&dht, a).unwrap();
    assert_eq!(from_a.len(), 1);
    assert_eq!((from_a[0].base, from_a[0].target), (0, 2));
    assert_eq!(from_a[0].kind, LinkKind::MyEntryToMyEntry);
    assert_eq!(get_linked_my_entries(&dht, a2).unwrap().len(), 1);
    assert!(get_linked_my_entries(&dht, b).unwrap().is_empty());
}

#[test]
fn missing_address_reads_empty_and_fails_update() {
    let mut dht = Dht::new();
    create_my_entry(&mut dht, my("x")).unwrap();
    assert!(get_my_entry(&dht, 77).unwrap().is_none());
    assert!(get_entry(&dht, 77).unwrap().is_none());
    assert_eq!(update_my_entry(&mut dht, my("y"), 77), Err(ZomeError::NotFound));
    assert_eq!(dht.revisions.len(), 2);
    assert_eq!(get_entry_history(&dht, 77).unwrap(), None);
}

#[test]
fn link_and_linked_fail_on_missing_address() {
    let mut dht = Dht::new();
    let a = create_my_entry(&mut dht, my("x")).unwrap();
    assert_eq!(link_my_entries(&mut dht, a, 9), Err(ZomeError::NotFound));
    assert_eq!(link_my_entries(&mut dht, 9, a), Err(ZomeError::NotFound));
    assert_eq!(get_linked_my_entries(&dht, 9).unwrap_err(), ZomeError::NotFound);
    assert!(dht.links.is_empty());
}

#[test]
fn first_revision_without_root_is_reported() {
    let mut dht = Dht::new();
    create_my_entry(&mut dht, my("x")).unwrap();
    assert_eq!(update_my_entry(&mut dht, my("y"), 0), Err(ZomeError::RootUnset));
    assert_eq!(link_my_entries(&mut dht, 0, 1), Err(ZomeError::RootUnset));
    assert_eq!(get_linked_my_entries(&dht, 0).unwrap_err(), ZomeError::RootUnset);
}

#[test]
fn lineage_calls_on_other_schemas_are_refused() {
    let mut dht = Dht::new();
    let p = create_my_parent_entry(&mut dht, MyParentEntry::new("p".to_string())).unwrap();
    assert_eq!(update_my_entry(&mut dht, my("y"), p), Err(ZomeError::NotMyEntry));
    assert_eq!(get_linked_my_entries(&dht, p).unwrap_err(), ZomeError::NotMyEntry);
}

#[test]
fn plan_update_decides_from_the_fetched_record() {
    let stored = Record::My(MyEntry { content: "a".to_string(), root: Some(4) });
    assert_eq!(lineage_root(&stored), Ok(4));
    assert!(plan_update(&my("a"), &stored).unwrap().is_none());
    let next = plan_update(&MyEntry { content: "b".to_string(), root: Some(9) }, &stored)
        .unwrap()
        .unwrap();
    assert_eq!((next.content.as_str(), next.root), ("b", Some(4)));
    let bare = Record::My(my("a"));
    assert_eq!(plan_update(&my("b"), &bare).unwrap_err(), ZomeError::RootUnset);
    let child = Record::Child(MyChildEntry::new("c".to_string()));
    assert_eq!(lineage_root(&child), Err(ZomeError::NotMyEntry));
}

#[test]
fn from_record_takes_only_my_entries() {
    let e = MyEntry::from_record(Record::My(my("q"))).unwrap();
    assert_eq!(e.content, "q");
    let p = Record::Parent(MyParentEntry::new("p".to_string()));
    assert_eq!(MyEntry::from_record(p).unwrap_err(), ZomeError::NotMyEntry);
}

#[test]
fn children_follow_the_parent_across_updates() {
    let mut dht = Dht::new();
    let p = create_my_parent_entry(&mut dht, MyParentEntry::new("p".to_string())).unwrap();
    let c1 = create_my_child_entry(&mut dht, p, MyChildEntry::new("c1".to_string())).unwrap();
    let c2 = create_my_child_entry(&mut dht, p, MyChildEntry::new("c2".to_string())).unwrap();
    let p2 = update_my_parent_entry(&mut dht, p, MyParentEntry::new("p, later".to_string())).unwrap();
    assert_eq!(p2, 3);
    let targets = |links: Vec<my_zome::store::Link>| links.iter().map(|l| l.target).collect::<Vec<u64>>();
    assert_eq!(targets(get_children(&dht, p2).unwrap()), vec![c1, c2]);
    assert_eq!(targets(get_children(&dht, p).unwrap()), vec![c1, c2]);
    assert_eq!(dht.links.len(), 4);
    assert!(get_children(&dht, p2).unwrap().iter().all(|l| l.base == p2 && l.kind == LinkKind::ParentToChild));
}

#[test]
fn history_of_a_middle_revision_is_complete() {
    let mut dht = Dht::new();
    create_my_parent_entry(&mut dht, MyParentEntry::new("unrelated".to_string())).unwrap();
    let r1 = create_my_parent_entry(&mut dht, MyParentEntry::new("r1".to_string())).unwrap();
    let r2 = update_my_parent_entry(&mut dht, r1, MyParentEntry::new("r2".to_string())).unwrap();
    let r3 = update_my_parent_entry(&mut dht, r2, MyParentEntry::new("r3".to_string())).unwrap();
    assert_eq!(get_entry_history(&dht, r2).unwrap(), Some(vec![r1, r2, r3]));
    assert_eq!(get_entry_history(&dht, r3).unwrap(), Some(vec![1, 2, 3]));
    assert_eq!(get_entry_history(&dht, 0).unwrap(), Some(vec![0]));
}

#[test]
fn child_update_and_missing_parent() {
    let mut dht = Dht::new();
    let p = create_my_parent_entry(&mut dht, MyParentEntry::new("p".to_string())).unwrap();
    let c = create_my_child_entry(&mut dht, p, MyChildEntry::new("c".to_string())).unwrap();
    let c2 = update_my_child_entry(&mut dht, c, MyChildEntry::new("c, later".to_string())).unwrap();
    match get_entry(&dht, c2).unwrap() {
        Some(Record::Child(e)) => assert_eq!(e.content, "c, later"),
        _ => panic!("no child"),
    }
    assert_eq!(update_my_child_entry(&mut dht, 50, MyChildEntry::new("z".to_string())), Err(ZomeError::NotFound));
    assert_eq!(update_my_parent_entry(&mut dht, 50, MyParentEntry::new("z".to_string())), Err(ZomeError::NotFound));
    assert_eq!(create_my_child_entry(&mut dht, 50, MyChildEntry::new("z".to_string())), Err(ZomeError::NotFound));
    assert_eq!(dht.revisions.len(), 4);
    assert_eq!(dht.links.len(), 1);
    assert_eq!(get_children(&dht, 60).unwrap_err(), ZomeError::Internal);
}

#[test]
fn schemas_and_hooks() {
    let d = my_entry_def();
    assert_eq!(d.name, "my_entry");
    assert_eq!(d.sharing, Sharing::Public);
    assert_eq!(d.links.len(), 1);
    assert_eq!(d.links[0].link_type.link_type_name(), "my_entry_to_my_entry");
    let p = my_parent_entry_def();
    assert_eq!(p.name, "my_parent_entry");
    assert_eq!(p.links[0].target_type, "my_child_entry");
    assert_eq!(p.links[0].link_type.link_type_name(), "parent_to_child");
    let c = my_child_entry_def();
    assert_eq!(c.name, "my_child_entry");
    assert!(c.links.is_empty());
    assert_eq!(init(), Ok(()));
    assert_eq!(validate_agent(&"agent".to_string()), Ok(()));
    assert_eq!(ZomeError::RootUnset.message(), "corrupt lineage: root unset");
    assert_eq!(ZomeError::NotFound.message(), "not found");
}

#[test]
fn schemas_accept_every_entry_and_link() {
    let entries = [
        Record::My(MyEntry { content: "x".to_string(), root: Some(3) }),
        Record::My(my("")),
        Record::Parent(MyParentEntry::new("p".to_string())),
        Record::Child(MyChildEntry::new("c".to_string())),
    ];
    for def in [my_entry_def(), my_parent_entry_def(), my_child_entry_def()] {
        for rec in entries.iter() {
            assert_eq!(def.validate_entry(rec), Ok(()));
        }
        for link in def.links.iter() {
            assert_eq!(link.validate_link(0, 1), Ok(()));
            assert_eq!(link.validate_link(7, 7), Ok(()));
        }
    }
}

#[test]
fn every_error_has_its_message() {
    assert_eq!(ZomeError::NotFound.message(), "not found");
    assert_eq!(ZomeError::RootUnset.message(), "corrupt lineage: root unset");
    assert_eq!(ZomeError::NotMyEntry.message(), "Could not construct MyEntry from Entry");
    assert_eq!(ZomeError::Internal.message(), "Failed to get latest entry");
}
