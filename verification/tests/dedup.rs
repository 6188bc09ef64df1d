use filehost::dedup::{
    group_by_canonical, temp_link_path, would_link_line, DedupRun, FileState, LinkEvent, LinkStage,
};
use filehost::model::DedupPair;

fn pair(dup: u128, canonical: u128) -> DedupPair {
    DedupPair { dup_id: dup, canonical_id: canonical }
}

#[test]
fn group_by_canonical_groups_duplicates_under_shared_canonical() {
    let groups = group_by_canonical(&vec![pair(1, 3), pair(2, 3), pair(4, 5)]);
    assert_eq!(groups.len(), 2);
    let of_3 = groups.iter().find(|g| g.canonical == 3).unwrap();
    let mut dups_of_3 = of_3.dups.clone();
    dups_of_3.sort();
    assert_eq!(dups_of_3, vec![1, 2]);
    let of_5 = groups.iter().find(|g| g.canonical == 5).unwrap();
    assert_eq!(of_5.dups, vec![4]);
}

#[test]
fn group_by_canonical_empty_input_yields_no_groups() {
    assert!(group_by_canonical(&vec![]).is_empty());
}

#[test]
fn a_run_settles_every_duplicate() {
    let pairs = vec![pair(1, 10), pair(2, 20), pair(3, 10), pair(4, 30), pair(5, 10), pair(6, 10)];
    let mut run = DedupRun::new(&pairs, false);
    assert_eq!(run.next(), LinkStage::Canonical { group: 0 });
    assert_eq!(run.canonical(0), 10);
    run.advance(LinkEvent::State(FileState::Plain));
    assert_eq!(run.next(), LinkStage::Resolving { group: 0 });
    run.advance(LinkEvent::Resolved);
    assert_eq!(run.next(), LinkStage::Duplicate { group: 0, dup: 0 });
    assert_eq!(run.duplicate(0, 0), 1);
    run.advance(LinkEvent::State(FileState::Plain));
    assert_eq!(run.next(), LinkStage::Linking { group: 0, dup: 0 });
    run.advance(LinkEvent::Linked);
    assert_eq!(run.duplicate(0, 1), 3);
    run.advance(LinkEvent::State(FileState::Symlink));
    assert_eq!(run.next(), LinkStage::Target { group: 0, dup: 1 });
    run.advance(LinkEvent::LeadsToCanonical(true));
    run.advance(LinkEvent::State(FileState::Missing));
    run.advance(LinkEvent::State(FileState::Plain));
    run.advance(LinkEvent::Failed);
    assert_eq!(run.next(), LinkStage::Canonical { group: 1 });
    run.advance(LinkEvent::State(FileState::Symlink));
    assert_eq!(run.next(), LinkStage::Canonical { group: 2 });
    run.advance(LinkEvent::State(FileState::Plain));
    run.advance(LinkEvent::Failed);
    assert_eq!(run.next(), LinkStage::Finished);
    assert_eq!(
        run.summary(),
        "Done: 1 file(s) linked, 1 already linked, 2 skipped, 2 error(s)."
    );
}

#[test]
fn a_dry_run_links_nothing() {
    let mut run = DedupRun::new(&vec![pair(1, 10), pair(2, 10)], true);
    run.advance(LinkEvent::State(FileState::Plain));
    run.advance(LinkEvent::Resolved);
    run.advance(LinkEvent::State(FileState::Plain));
    run.advance(LinkEvent::State(FileState::Symlink));
    run.advance(LinkEvent::LeadsToCanonical(false));
    assert_eq!(run.next(), LinkStage::Finished);
    assert_eq!(
        run.summary(),
        "Done: 1 file(s) would be linked, 0 already linked, 1 skipped, 0 error(s)."
    );
    assert_eq!(would_link_line("a", "b"), "Would link a -> b");
    assert_eq!(temp_link_path("x/y"), "x/y.dedup-tmp");
}

#[test]
fn a_missing_newest_copy_fails_its_group() {
    let mut run = DedupRun::new(&vec![pair(1, 10), pair(2, 10)], false);
    run.advance(LinkEvent::State(FileState::Missing));
    assert_eq!(run.next(), LinkStage::Finished);
    assert_eq!(
        run.summary(),
        "Done: 0 file(s) linked, 0 already linked, 0 skipped, 2 error(s)."
    );
    let empty = DedupRun::new(&vec![], false);
    assert_eq!(empty.next(), LinkStage::Finished);
}
