use my_tasks::cache::Cache;
use my_tasks::calendar::{Calendar, SupportedComponents};
use my_tasks::item::{ItemId, SyncStatus, Task, VersionTag};
use my_tasks::provider::Provider;

const CAL: &str = "http://todo.list/cal";

fn synced(name: &str, id: u64) -> Task {
    Task::new(name.to_string(), ItemId { id }, SyncStatus::Synced(VersionTag { tag: 7 }))
}

fn contents(cache: &Cache) -> Vec<(u64, String, bool, SyncStatus)> {
    let cal = cache.get_calendar(CAL).expect("calendar present");
    let mut v: Vec<(u64, String, bool, SyncStatus)> = cal
        .tasks()
        .iter()
        .map(|t| (t.id().id, t.name().clone(), t.completed(), t.sync_status()))
        .collect();
    v.sort_by_key(|e| e.0);
    v
}

fn same_contents(a: &Cache, b: &Cache) -> bool {
    let strip = |v: Vec<(u64, String, bool, SyncStatus)>| -> Vec<(u64, String, bool)> {
        v.into_iter().map(|(i, n, c, _)| (i, n, c)).collect()
    };
    strip(contents(a)) == strip(contents(b))
}

fn base_calendar() -> Calendar {
    let mut cal = Calendar::new("a list".to_string(), CAL.to_string(), SupportedComponents::todo());
    for (i, letter) in "ABCDEFGHIJKLM".chars().enumerate() {
        assert!(cal.add_item(synced(&format!("task {}", letter), i as u64 + 1)));
    }
    cal
}

/// Ids: A=1, B=2, ..., M=13; N=14 (new on the server), O=15 (new locally).
fn populate_test_provider() -> Provider {
    let mut server_cal = base_calendar();
    assert!(server_cal.delete_item(ItemId { id: 2 }));
    server_cal.task_by_id_mut(ItemId { id: 5 }).unwrap().set_name("E has been remotely renamed".to_string());
    server_cal.task_by_id_mut(ItemId { id: 6 }).unwrap().set_name("F renamed in the server".to_string());
    server_cal.task_by_id_mut(ItemId { id: 7 }).unwrap().set_completed(true);
    assert!(server_cal.set_task_name(ItemId { id: 9 }, "I renamed in the server".to_string()));
    assert!(server_cal.delete_item(ItemId { id: 10 }));
    assert!(server_cal.set_task_completed(ItemId { id: 11 }, true));
    assert!(server_cal.delete_item(ItemId { id: 12 }));
    assert!(server_cal.add_item(synced("task N (new from server)", 14)));

    let mut local_cal = base_calendar();
    assert!(local_cal.mark_for_deletion(ItemId { id: 3 }));
    assert!(local_cal.set_task_name(ItemId { id: 4 }, "D has been locally renamed".to_string()));
    assert!(local_cal.set_task_name(ItemId { id: 6 }, "F renamed locally as well!".to_string()));
    assert!(local_cal.set_task_completed(ItemId { id: 8 }, true));
    assert!(local_cal.set_task_completed(ItemId { id: 9 }, true));
    assert!(local_cal.set_task_completed(ItemId { id: 10 }, true));
    assert!(local_cal.mark_for_deletion(ItemId { id: 11 }));
    assert!(local_cal.mark_for_deletion(ItemId { id: 12 }));
    assert!(local_cal.add_item(Task::new(
        "task O (new from local)".to_string(),
        ItemId { id: 15 },
        SyncStatus::NotSynced
    )));

    let mut server = Cache::new();
    let mut local = Cache::new();
    assert!(server.add_calendar(server_cal));
    assert!(local.add_calendar(local_cal));
    Provider::new(server, local)
}

#[test]
fn test_regular_sync() {
    let mut provider = populate_test_provider();
    provider.sync(VersionTag { tag: 100 });

    println!("----Server-------");
    println!("{:?}", contents(provider.remote()));
    println!("\n----Local-------");
    println!("{:?}", contents(provider.local()));

    assert!(same_contents(provider.remote(), provider.local()));

    let expected: Vec<(u64, &str, bool)> = vec![
        (1, "task A", false),
        (4, "D has been locally renamed", false),
        (5, "E has been remotely renamed", false),
        (6, "F renamed in the server", false),
        (7, "task G", true),
        (8, "task H", true),
        (9, "I renamed in the server", false),
        (11, "task K", true),
        (13, "task M", false),
        (14, "task N (new from server)", false),
        (15, "task O (new from local)", false),
    ];
    for cache in [provider.remote(), provider.local()] {
        let got = contents(cache);
        let got: Vec<(u64, &str, bool)> = got.iter().map(|(i, n, c, _)| (*i, n.as_str(), *c)).collect();
        assert_eq!(got, expected);
        for (_, _, _, status) in contents(cache) {
            assert!(matches!(status, SyncStatus::Synced(_)));
        }
    }
}

#[test]
fn second_sync_changes_nothing() {
    let mut provider = populate_test_provider();
    provider.sync(VersionTag { tag: 100 });
    let remote_once = contents(provider.remote());
    let local_once = contents(provider.local());
    provider.sync(VersionTag { tag: 200 });
    assert_eq!(contents(provider.remote()), remote_once);
    assert_eq!(contents(provider.local()), local_once);
}

#[test]
fn reconciled_items_take_the_new_tag() {
    let mut provider = populate_test_provider();
    provider.sync(VersionTag { tag: 100 });
    let local = contents(provider.local());
    let a = local.iter().find(|e| e.0 == 1).unwrap();
    assert_eq!(a.3, SyncStatus::Synced(VersionTag { tag: 7 }));
    let h = local.iter().find(|e| e.0 == 8).unwrap();
    assert_eq!(h.3, SyncStatus::Synced(VersionTag { tag: 100 }));
}

fn one_item_provider(local_task: Option<Task>, remote_task: Option<Task>) -> Provider {
    let mut l = Calendar::new("c".to_string(), CAL.to_string(), SupportedComponents::todo());
    let mut r = Calendar::new("c".to_string(), CAL.to_string(), SupportedComponents::todo());
    if let Some(t) = local_task {
        assert!(l.add_item(t));
    }
    if let Some(t) = remote_task {
        assert!(r.add_item(t));
    }
    let mut lc = Cache::new();
    let mut rc = Cache::new();
    lc.add_calendar(l);
    rc.add_calendar(r);
    Provider::new(rc, lc)
}

#[test]
fn local_rename_reaches_remote() {
    let mut local = synced("F", 1);
    local.set_name("F local".to_string());
    let mut p = one_item_provider(Some(local), Some(synced("F", 1)));
    p.sync(VersionTag { tag: 3 });
    for cache in [p.local(), p.remote()] {
        assert_eq!(contents(cache), vec![(1, "F local".to_string(), false, SyncStatus::Synced(VersionTag { tag: 3 }))]);
    }
}

#[test]
fn conflicting_renames_keep_the_remote_one() {
    let mut local = synced("F", 1);
    local.set_name("F''".to_string());
    let mut remote = synced("F", 1);
    remote.set_name("F'".to_string());
    let mut p = one_item_provider(Some(local), Some(remote));
    p.sync(VersionTag { tag: 3 });
    for cache in [p.local(), p.remote()] {
        assert_eq!(contents(cache), vec![(1, "F'".to_string(), false, SyncStatus::Synced(VersionTag { tag: 3 }))]);
    }
}

#[test]
fn rename_and_completion_conflict_keeps_remote_whole() {
    let mut local = synced("G", 1);
    local.set_completed(true);
    let mut remote = synced("G", 1);
    remote.set_name("G'".to_string());
    let mut p = one_item_provider(Some(local), Some(remote));
    p.sync(VersionTag { tag: 3 });
    for cache in [p.local(), p.remote()] {
        assert_eq!(contents(cache), vec![(1, "G'".to_string(), false, SyncStatus::Synced(VersionTag { tag: 3 }))]);
    }
}

#[test]
fn deletion_on_one_side_removes_on_both() {
    let mut local = synced("C", 1);
    local.mark_deleted();
    let mut p = one_item_provider(Some(local), Some(synced("C", 1)));
    p.sync(VersionTag { tag: 3 });
    assert!(contents(p.local()).is_empty());
    assert!(contents(p.remote()).is_empty());

    let mut p = one_item_provider(Some(synced("B", 1)), None);
    p.sync(VersionTag { tag: 3 });
    assert!(contents(p.local()).is_empty());
    assert!(contents(p.remote()).is_empty());
}

#[test]
fn deletion_against_edit_follows_the_remote() {
    let mut local = synced("J", 1);
    local.set_completed(true);
    let mut p = one_item_provider(Some(local), None);
    p.sync(VersionTag { tag: 3 });
    assert!(contents(p.local()).is_empty());
    assert!(contents(p.remote()).is_empty());

    let mut local = synced("K", 1);
    local.mark_deleted();
    let mut remote = synced("K", 1);
    remote.set_completed(true);
    let mut p = one_item_provider(Some(local), Some(remote));
    p.sync(VersionTag { tag: 3 });
    for cache in [p.local(), p.remote()] {
        assert_eq!(contents(cache), vec![(1, "K".to_string(), true, SyncStatus::Synced(VersionTag { tag: 3 }))]);
    }
}

#[test]
fn new_items_cross_over() {
    let local = Task::new("O".to_string(), ItemId { id: 1 }, SyncStatus::NotSynced);
    let remote = synced("N", 2);
    let mut p = one_item_provider(Some(local), Some(remote));
    p.sync(VersionTag { tag: 4 });
    for cache in [p.local(), p.remote()] {
        assert_eq!(
            contents(cache),
            vec![
                (1, "O".to_string(), false, SyncStatus::Synced(VersionTag { tag: 4 })),
                (2, "N".to_string(), false, SyncStatus::Synced(VersionTag { tag: 4 })),
            ]
        );
    }
}

#[test]
fn calendar_on_one_side_is_created_on_the_other() {
    let mut cal = Calendar::new("only here".to_string(), CAL.to_string(), SupportedComponents::event());
    assert!(cal.add_item(Task::new("x".to_string(), ItemId { id: 9 }, SyncStatus::NotSynced)));
    let mut local = Cache::new();
    assert!(local.add_calendar(cal));
    let mut p = Provider::new(Cache::new(), local);
    p.sync(VersionTag { tag: 1 });
    let remote_cal = p.remote().get_calendar(CAL).unwrap();
    assert_eq!(remote_cal.name(), "only here");
    assert_eq!(remote_cal.supported_components(), SupportedComponents::event());
    assert_eq!(contents(p.remote()), vec![(9, "x".to_string(), false, SyncStatus::Synced(VersionTag { tag: 1 }))]);
}

#[test]
fn calendar_store_refuses_duplicates() {
    let mut cal = Calendar::new("c".to_string(), CAL.to_string(), SupportedComponents::todo());
    assert!(cal.add_item(synced("a", 1)));
    assert!(!cal.add_item(synced("b", 1)));
    assert!(!cal.set_task_name(ItemId { id: 2 }, "z".to_string()));
    assert!(!cal.delete_item(ItemId { id: 2 }));
    assert!(cal.task_by_id_mut(ItemId { id: 2 }).is_none());
    assert_eq!(cal.task_by_id(ItemId { id: 1 }).unwrap().name(), "a");
    let mut cache = Cache::new();
    assert!(cache.add_calendar(cal));
    let other = Calendar::new("d".to_string(), CAL.to_string(), SupportedComponents::todo());
    assert!(!cache.add_calendar(other));
    assert!(cache.take_calendar(CAL).is_some());
    assert!(cache.get_calendar(CAL).is_none());
}

#[test]
fn task_status_moves_on_edits() {
    let mut t = synced("t", 1);
    t.set_name("u".to_string());
    assert_eq!(t.sync_status(), SyncStatus::LocallyModified(VersionTag { tag: 7 }));
    t.mark_deleted();
    assert_eq!(t.sync_status(), SyncStatus::LocallyDeleted(VersionTag { tag: 7 }));
    let mut n = Task::new("n".to_string(), ItemId { id: 2 }, SyncStatus::NotSynced);
    n.set_completed(true);
    assert_eq!(n.sync_status(), SyncStatus::NotSynced);
}
