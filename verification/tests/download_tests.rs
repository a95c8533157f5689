use phog::download::{
    Downloader, FsAction, SingleScheduler, TransferFile, WriterFile, build_photo_path,
    make_part_path, resolve_multi_batch,
};
use phog::store::Photoset;

fn set(rowid: i64, urls: &[&str]) -> Photoset {
    Photoset {
        rowid,
        screen_name: "anon".to_owned(),
        id_str: rowid.to_string(),
        photo_urls: urls.iter().map(|u| (*u).to_owned()).collect(),
    }
}

#[test]
fn part_path() {
    {
        let path = "/foo/dest.txt";
        let part_path = "/foo/dest.txt.part".to_owned();

        assert_eq!(make_part_path(path), Some(part_path));
    }

    {
        // a trailing separator names the directory itself
        let path = "/foo/";
        let part_path = "/foo.part".to_owned();

        assert_eq!(make_part_path(path), Some(part_path));
    }

    {
        let path = "/";

        assert!(make_part_path(path).is_none());
    }
}

#[test]
fn partition_by_photo_count() {
    let sets = vec![set(0, &["a"]), set(1, &["a", "b"]), set(2, &["c"]), set(3, &[])];
    let d = Downloader::new(sets);

    let single_ids: Vec<i64> = d.single_photo_photosets.iter().map(|s| s.rowid).collect();
    let multi_ids: Vec<i64> = d.multi_photo_photosets.iter().map(|s| s.rowid).collect();
    assert_eq!(single_ids, vec![0, 2]);
    assert_eq!(multi_ids, vec![1, 3]);
}

#[test]
fn scheduler_respects_concurrency_cap() {
    let sets: Vec<Photoset> = (0..6).map(|i| set(i, &["u"])).collect();
    let mut sched = SingleScheduler::new(sets);

    let (a, b) = sched.start_jobs();
    assert_eq!((a, b), (0, 4));
    assert_eq!(sched.in_flight, 4);

    // nothing more starts while the cap is reached
    let (a, b) = sched.start_jobs();
    assert_eq!(a, b);

    // each completion immediately frees a slot for the next queued set
    sched.on_complete();
    let (a, b) = sched.start_jobs();
    assert_eq!((a, b), (4, 5));
    sched.on_complete();
    let (a, b) = sched.start_jobs();
    assert_eq!((a, b), (5, 6));
    assert!(!sched.is_done());
    sched.on_complete();
    sched.on_complete();
    sched.on_complete();
    sched.on_complete();
    assert!(sched.is_done());
}

#[test]
fn transfer_lifecycle_success() {
    let mut t = TransferFile::new("dest.txt".to_owned());
    let (acts, ok) = t.on_data();
    assert!(ok);
    assert_eq!(acts, vec![FsAction::CreatePart, FsAction::WriteChunk]);
    let (acts, ok) = t.on_data();
    assert!(ok);
    assert_eq!(acts, vec![FsAction::WriteChunk]);

    let acts = t.finish().unwrap();
    assert_eq!(acts, vec![FsAction::RenamePartToDest]);
    assert!(t.finalized);
}

#[test]
fn transfer_without_data_creates_no_file() {
    let mut t = TransferFile::new("dest.txt".to_owned());
    let acts = t.finish().unwrap();
    assert_eq!(acts, Vec::<FsAction>::new());
    assert!(!t.finalized);
}

#[test]
fn aborted_transfer_leaves_no_files() {
    // an aborted or abandoned single-photo transfer deletes its part file
    // and never produces the destination
    let mut t = TransferFile::new("dest.txt".to_owned());
    let (_acts, _) = t.on_data();
    t.mark_failed();
    assert!(t.finish().is_err());
    let acts = t.discard_part();
    assert_eq!(acts, vec![FsAction::RemovePart]);
    assert!(!t.finalized);
    assert!(matches!(t.state, WriterFile::Closed));
}

#[test]
fn data_after_finish_poisons_the_transfer() {
    let mut t = TransferFile::new("dest.txt".to_owned());
    let _ = t.on_data();
    let _ = t.finish().unwrap();
    let (acts, ok) = t.on_data();
    assert!(!ok);
    assert!(acts.is_empty());
    assert!(t.failed);
}

#[test]
fn multi_batch_failure_discards_everything() {
    // transfer 2 of 3 in the batch failed
    let mut files = vec![
        TransferFile::new("a".to_owned()),
        TransferFile::new("b".to_owned()),
        TransferFile::new("c".to_owned()),
    ];
    let _ = files[0].on_data();
    let _ = files[1].on_data();
    let _ = files[2].on_data();
    files[1].mark_failed();

    let r = resolve_multi_batch(&mut files, false);
    assert!(!r.report_set);
    assert!(r.actions.iter().flatten().all(|a| *a != FsAction::RenamePartToDest));
    assert_eq!(
        r.actions,
        vec![vec![FsAction::RemovePart], vec![FsAction::RemovePart], vec![FsAction::RemovePart]]
    );
    for f in files.iter() {
        assert!(!f.finalized);
        assert!(matches!(f.state, WriterFile::Closed));
    }
}

#[test]
fn multi_batch_success_finalizes_everything() {
    let mut files = vec![TransferFile::new("a".to_owned()), TransferFile::new("b".to_owned())];
    let _ = files[0].on_data();
    let _ = files[1].on_data();

    let r = resolve_multi_batch(&mut files, true);
    assert!(r.report_set);
    assert_eq!(
        r.actions,
        vec![vec![FsAction::RenamePartToDest], vec![FsAction::RenamePartToDest]]
    );
    assert!(files.iter().all(|f| f.finalized));
}

#[test]
fn photo_paths_are_deterministic_and_distinct() {
    let ps = set(7, &["https://img.example/media/photo.jpg"]);
    let a = build_photo_path(&ps, "https://img.example/media/photo.jpg", 1).unwrap();
    let b = build_photo_path(&ps, "https://img.example/media/photo.jpg", 1).unwrap();
    assert_eq!(a, "@anon-7-img1-photo.jpg");
    assert_eq!(a, b);

    let c = build_photo_path(&ps, "https://img.example/media/photo.jpg", 2).unwrap();
    assert_eq!(c, "@anon-7-img2-photo.jpg");
    assert_ne!(a, c);

    let other = set(8, &["https://img.example/media/photo.jpg"]);
    let d = build_photo_path(&other, "https://img.example/media/photo.jpg", 1).unwrap();
    assert_ne!(a, d);

    // text that is no URL yields no path
    assert!(build_photo_path(&ps, "not a url", 1).is_none());
}
