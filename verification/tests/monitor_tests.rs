use media_watch::directory::Directory;
use media_watch::monitor::{
    after_claim, classify_entry, ClaimOutcome, Dispatch, FsEvent, Monitor, MoveError,
    RemovalOutcome, ScanStep,
};
use media_watch::policy::Policy;
use media_watch::table::{WatchError, WatchTable};

fn b(s: &str) -> Vec<u8> {
    s.as_bytes().to_vec()
}

fn file_event(wd: i32, name: &str) -> FsEvent {
    FsEvent {
        wd,
        ignored: false,
        delete_self: false,
        move_self: false,
        is_dir: false,
        name: Some(b(name)),
    }
}

fn dir_event(wd: i32, name: &str) -> FsEvent {
    FsEvent {
        wd,
        ignored: false,
        delete_self: false,
        move_self: false,
        is_dir: true,
        name: Some(b(name)),
    }
}

fn delete_self_event(wd: i32) -> FsEvent {
    FsEvent { wd, ignored: false, delete_self: true, move_self: false, is_dir: false, name: None }
}

fn move_self_event(wd: i32) -> FsEvent {
    FsEvent { wd, ignored: false, delete_self: false, move_self: true, is_dir: false, name: None }
}

fn ignored_event(wd: i32) -> FsEvent {
    FsEvent { wd, ignored: true, delete_self: false, move_self: false, is_dir: false, name: None }
}

#[test]
fn directory_join_omits_leading_dot() {
    let root = Directory::new(b("."), 1);
    assert_eq!(root.join(&b("a.jpg")), b("a.jpg"));
    assert_eq!(root.join_owned(b("a.jpg")), b("a.jpg"));
    let camera = Directory::new(b("Camera"), 2);
    assert_eq!(camera.join(&b("a.jpg")), b("Camera/a.jpg"));
    assert_eq!(camera.join_owned(b("a.jpg")), b("Camera/a.jpg"));
    assert_eq!(camera.path(), &b("Camera"));
}

#[test]
fn destination_materialized_exactly_once() {
    let mut d = Directory::new(b("Camera"), 2);
    assert!(!d.dst_created);
    let (path, create) = d.dst(&b("dest"));
    assert_eq!(path, b("dest/Camera"));
    assert!(create);
    let (path, create) = d.dst(&b("dest"));
    assert_eq!(path, b("dest/Camera"));
    assert!(!create);
}

#[test]
fn destination_of_watch_root_is_the_destination_root() {
    let d = Directory::new(b("."), 1);
    assert_eq!(d.dst_path(&b("dest")), b("dest"));
}

#[test]
fn eligibility_fixed_at_creation() {
    assert!(Directory::new(b("Camera"), 1).allow_img);
    assert!(Directory::new(b("Camera/Burst"), 2).allow_img);
    assert!(!Directory::new(b("Screenshots"), 3).allow_img);
}

#[test]
fn duplicate_inodes_are_rejected() {
    let mut t = WatchTable::new();
    assert_eq!(t.check_add(true, 7), Ok(()));
    t.insert(1, Directory::new(b("Camera"), 7));
    assert_eq!(t.check_add(true, 7), Err(WatchError::DuplicateInode));
    assert_eq!(t.check_add(true, 8), Ok(()));
    assert_eq!(t.check_add(false, 9), Err(WatchError::NotADirectory));
    assert!(t.contains_ino(7));
    assert!(!t.contains_ino(8));
}

#[test]
fn removal_frees_the_inode_for_rewatching() {
    let mut t = WatchTable::new();
    t.insert(1, Directory::new(b("Camera"), 7));
    assert_eq!(t.len(), 1);
    let removed = t.remove(1);
    assert!(removed.is_some());
    assert_eq!(removed.unwrap().ino, 7);
    assert_eq!(t.len(), 0);
    // The handle and the inode are gone; both may be reused.
    assert!(t.remove(1).is_none());
    assert!(t.lookup(1).is_err());
    assert_eq!(t.check_add(true, 7), Ok(()));
}

#[test]
fn removal_then_acknowledgment_removes_once() {
    let mut m = Monitor::new(b("dest"), false);
    m.table.insert(1, Directory::new(b("Camera"), 7));
    m.table.insert(2, Directory::new(b("Screenshots"), 8));

    let out = m.handle_rm(&delete_self_event(1));
    assert!(matches!(out, RemovalOutcome::Removed { found: true, deregister: false }));
    assert_eq!(m.table.len(), 1);

    // The terminal acknowledgment that follows is a no-op.
    let out = m.handle_rm(&ignored_event(1));
    assert!(matches!(out, RemovalOutcome::Acknowledged));
    assert_eq!(m.table.len(), 1);
    assert!(m.table.contains_wd(2));
}

#[test]
fn move_self_asks_for_deregistration() {
    let mut m = Monitor::new(b("dest"), false);
    m.table.insert(1, Directory::new(b("Camera"), 7));
    let out = m.handle_rm(&move_self_event(1));
    assert!(matches!(out, RemovalOutcome::Removed { found: true, deregister: true }));
    assert_eq!(m.table.len(), 0);
}

#[test]
fn removals_applied_before_survivors_are_handed_back() {
    let mut m = Monitor::new(b("dest"), false);
    m.table.insert(1, Directory::new(b("Camera"), 7));
    m.table.insert(2, Directory::new(b("Screenshots"), 8));
    // Arrival order: a creation first, the removal after it. The removal
    // is applied anyway; the creation survives in order.
    let batch = vec![
        file_event(2, "shot.png"),
        delete_self_event(1),
        ignored_event(1),
        move_self_event(2),
        file_event(2, "late.png"),
    ];
    let (survivors, deregs) = m.apply_removals(batch);
    assert_eq!(m.table.len(), 0);
    assert_eq!(survivors.len(), 2);
    assert_eq!(survivors[0].name, Some(b("shot.png")));
    assert_eq!(survivors[1].name, Some(b("late.png")));
    assert_eq!(deregs, vec![2]);
}

#[test]
fn read_failure_fatal_only_when_consecutive() {
    let mut m = Monitor::new(b("dest"), false);
    // One isolated failure is tolerated.
    assert!(!m.note_read_result(false));
    // A second consecutive failure is fatal.
    assert!(m.note_read_result(false));

    let mut m = Monitor::new(b("dest"), false);
    assert!(!m.note_read_result(false));
    assert!(!m.note_read_result(true));
    // The intervening success reset the flag.
    assert!(!m.note_read_result(false));
}

#[test]
fn collision_on_claim_aborts_the_move() {
    assert_eq!(after_claim(ClaimOutcome::Created), Ok(()));
    assert_eq!(after_claim(ClaimOutcome::AlreadyExists), Err(MoveError::CollisionOnClaim));
    assert_eq!(after_claim(ClaimOutcome::Failed), Err(MoveError::ClaimFailed));
}

#[test]
fn scenario_camera_and_screenshots() {
    let policy = Policy::new();
    let mut m = Monitor::new(b("dest"), false);
    m.table.insert(1, Directory::new(b("Camera"), 7));
    m.table.insert(2, Directory::new(b("Screenshots"), 8));
    let mut slept = false;

    // A new image in an image-capable directory: no move occurs.
    let r = m.handle(&file_event(1, "IMG_1.jpg"), &mut slept, &policy);
    assert!(matches!(r, Dispatch::Nothing));
    assert!(!slept);

    // A new video there: relocated to the mirrored destination path, with
    // the settle delay planned, and the destination directory created on
    // this first use.
    let r = m.handle(&file_event(1, "VID_1.mp4"), &mut slept, &policy);
    match r {
        Dispatch::Move(plan) => {
            assert_eq!(plan.src, b("Camera/VID_1.mp4"));
            assert_eq!(plan.dst_dir, b("dest/Camera"));
            assert_eq!(plan.dst, b("dest/Camera/VID_1.mp4"));
            assert!(plan.create_dir);
            assert!(!plan.dry);
            assert!(plan.settle);
        },
        _ => panic!("expected a move"),
    }
    assert!(slept);

    // A second move in the same batch pays no second settle delay, and
    // the destination directory is not created again.
    let r = m.handle(&file_event(1, "VID_2.mp4"), &mut slept, &policy);
    match r {
        Dispatch::Move(plan) => {
            assert!(!plan.settle);
            assert!(!plan.create_dir);
        },
        _ => panic!("expected a move"),
    }

    // A new image outside an image-capable directory: relocated.
    let r = m.handle(&file_event(2, "shot.png"), &mut slept, &policy);
    match r {
        Dispatch::Move(plan) => {
            assert_eq!(plan.src, b("Screenshots/shot.png"));
            assert_eq!(plan.dst, b("dest/Screenshots/shot.png"));
            assert!(plan.create_dir);
        },
        _ => panic!("expected a move"),
    }
}

#[test]
fn scenario_new_subdirectory_watched_lazily() {
    let policy = Policy::new();
    let mut m = Monitor::new(b("dest"), false);
    m.table.insert(1, Directory::new(b("Camera"), 7));
    let mut slept = false;

    // A subdirectory created under a watched directory is extended into.
    let r = m.handle(&dir_event(1, "Burst"), &mut slept, &policy);
    match r {
        Dispatch::WatchSubdir(p) => assert_eq!(p, b("Camera/Burst")),
        _ => panic!("expected recursive watching"),
    }

    // Watching it creates no destination directory yet.
    m.table.insert(2, Directory::new(b("Camera/Burst"), 9));
    assert!(!m.table.entries[1].1.dst_created);

    // Only the first file moved into it materializes the mirror.
    let r = m.handle(&file_event(2, "VID_9.mp4"), &mut slept, &policy);
    match r {
        Dispatch::Move(plan) => {
            assert_eq!(plan.dst, b("dest/Camera/Burst/VID_9.mp4"));
            assert!(plan.create_dir);
        },
        _ => panic!("expected a move"),
    }
    assert!(m.table.entries[1].1.dst_created);
}

#[test]
fn hidden_and_unknown_events_are_dropped() {
    let policy = Policy::new();
    let mut m = Monitor::new(b("dest"), false);
    m.table.insert(1, Directory::new(b("Camera"), 7));
    let mut slept = false;

    let r = m.handle(&file_event(1, ".trash.mp4"), &mut slept, &policy);
    assert!(matches!(r, Dispatch::Nothing));

    let r = m.handle(&file_event(99, "VID_1.mp4"), &mut slept, &policy);
    assert!(matches!(r, Dispatch::UnknownWd));
    assert!(!slept);
    assert_eq!(m.table.len(), 1);
}

#[test]
fn dry_run_plans_report_only() {
    let policy = Policy::new();
    let mut m = Monitor::new(b("dest"), true);
    m.table.insert(1, Directory::new(b("Screenshots"), 8));
    let mut slept = false;
    let r = m.handle(&file_event(1, "shot.png"), &mut slept, &policy);
    match r {
        Dispatch::Move(plan) => {
            assert!(plan.dry);
            assert!(!plan.create_dir);
            assert_eq!(plan.dst, b("dest/Screenshots/shot.png"));
        },
        _ => panic!("expected a move"),
    }
    // A dry run materializes nothing, so nothing is marked materialized.
    assert!(!m.table.entries[0].1.dst_created);
}

#[test]
fn scan_classification() {
    let policy = Policy::new();
    let camera = Directory::new(b("Camera"), 7);
    let shots = Directory::new(b("Screenshots"), 8);

    assert!(matches!(classify_entry(&camera, &b(".nomedia"), false, true, &policy), ScanStep::Skip));
    assert!(matches!(classify_entry(&camera, &b(".thumbs"), true, true, &policy), ScanStep::Skip));
    assert!(matches!(
        classify_entry(&camera, &b("DSC_2024"), true, true, &policy),
        ScanStep::SkipIgnored
    ));
    // The processed-folder filter applies only in in-place mode.
    match classify_entry(&camera, &b("DSC_2024"), true, false, &policy) {
        ScanStep::Recurse(p) => assert_eq!(p, b("Camera/DSC_2024")),
        _ => panic!("expected recursion"),
    }
    match classify_entry(&camera, &b("Burst"), true, true, &policy) {
        ScanStep::Recurse(p) => assert_eq!(p, b("Camera/Burst")),
        _ => panic!("expected recursion"),
    }
    // Pre-existing files are moved only in in-place mode.
    assert!(matches!(
        classify_entry(&shots, &b("shot.png"), false, true, &policy),
        ScanStep::MoveExisting
    ));
    assert!(matches!(classify_entry(&shots, &b("shot.png"), false, false, &policy), ScanStep::Skip));
    // And camera directories keep their images even then.
    assert!(matches!(classify_entry(&camera, &b("IMG_1.jpg"), false, true, &policy), ScanStep::Skip));
    assert!(matches!(
        classify_entry(&camera, &b("VID_1.mp4"), false, true, &policy),
        ScanStep::MoveExisting
    ));
}
