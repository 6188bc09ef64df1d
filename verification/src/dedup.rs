//! Replacing duplicate files by links to the newest copy.
//!
//! The caller looks at the files and makes the links; `DedupRun` says which
//! file comes next and what each finding leads to.

use vstd::prelude::*;
use vstd::string::*;

use crate::model::DedupPair;
use crate::text;
use crate::text::decimal_text;

verus! {

/// The uploads that are duplicates of one upload.
#[derive(Debug)]
pub struct Group {
    pub canonical: u128,
    pub dups: Vec<u128>,
}

impl View for Group {
    type V = (u128, Seq<u128>);

    open spec fn view(&self) -> (u128, Seq<u128>) {
        (self.canonical, self.dups@)
    }
}

/// The views of a list of groups.
pub open spec fn group_views(groups: Seq<Group>) -> Seq<(u128, Seq<u128>)> {
    groups.map_values(|g: Group| g@)
}

/// The duplicates of an upload, in the order of the pairs.
pub open spec fn dups_of(pairs: Seq<DedupPair>, canonical: u128) -> Seq<u128>
    decreases pairs.len(),
{
    if pairs.len() == 0 {
        Seq::empty()
    } else {
        let before = dups_of(pairs.drop_last(), canonical);
        if pairs.last().canonical_id == canonical {
            before.push(pairs.last().dup_id)
        } else {
            before
        }
    }
}

/// How many duplicates the first `n` groups hold.
pub open spec fn dup_count(groups: Seq<(u128, Seq<u128>)>, n: nat) -> nat
    decreases n,
{
    if n == 0 {
        0
    } else {
        dup_count(groups, (n - 1) as nat) + groups[n - 1].1.len()
    }
}

/// The groups are those of the pairs: one for each canonical upload, with all
/// its duplicates, and none that is empty.
pub open spec fn groups_of(groups: Seq<(u128, Seq<u128>)>, pairs: Seq<DedupPair>) -> bool {
    &&& forall|i: int, j: int|
        0 <= i < j < groups.len() ==> (#[trigger] groups[i]).0 != (#[trigger] groups[j]).0
    &&& forall|i: int|
        0 <= i < groups.len() ==> (#[trigger] groups[i]).1 == dups_of(pairs, groups[i].0)
            && groups[i].1.len() > 0
    &&& forall|k: int|
        0 <= k < pairs.len() ==> exists|i: int|
            0 <= i < groups.len() && (#[trigger] groups[i]).0 == (
            #[trigger] pairs[k]).canonical_id
    &&& dup_count(groups, groups.len()) == pairs.len()
}

proof fn lemma_dup_count_same(a: Seq<(u128, Seq<u128>)>, b: Seq<(u128, Seq<u128>)>, n: nat)
    requires
        n <= a.len(),
        n <= b.len(),
        forall|i: int| 0 <= i < n ==> (#[trigger] a[i]).1.len() == (#[trigger] b[i]).1.len(),
    ensures
        dup_count(a, n) == dup_count(b, n),
    decreases n,
{
    if n > 0 {
        lemma_dup_count_same(a, b, (n - 1) as nat);
        assert(a[n - 1].1.len() == b[n - 1].1.len());
    }
}

proof fn lemma_dup_count_grows(
    a: Seq<(u128, Seq<u128>)>,
    b: Seq<(u128, Seq<u128>)>,
    n: nat,
    k: int,
)
    requires
        n <= a.len(),
        n <= b.len(),
        0 <= k < n,
        forall|i: int|
            0 <= i < n && i != k ==> (#[trigger] a[i]).1.len() == (#[trigger] b[i]).1.len(),
        b[k].1.len() == a[k].1.len() + 1,
    ensures
        dup_count(b, n) == dup_count(a, n) + 1,
    decreases n,
{
    if k == n - 1 {
        lemma_dup_count_same(a, b, (n - 1) as nat);
    } else {
        lemma_dup_count_grows(a, b, (n - 1) as nat, k);
        assert(a[n - 1].1.len() == b[n - 1].1.len());
    }
}

proof fn lemma_dups_absent(pairs: Seq<DedupPair>, canonical: u128)
    requires
        forall|k: int| 0 <= k < pairs.len() ==> (#[trigger] pairs[k]).canonical_id != canonical,
    ensures
        dups_of(pairs, canonical).len() == 0,
    decreases pairs.len(),
{
    if pairs.len() > 0 {
        assert(pairs[pairs.len() - 1].canonical_id != canonical);
        let front = pairs.drop_last();
        assert forall|k: int| 0 <= k < front.len() implies (#[trigger] front[k]).canonical_id
            != canonical by {
            assert(pairs[k].canonical_id != canonical);
        }
        lemma_dups_absent(front, canonical);
    }
}

proof fn lemma_add_pair(
    groups: Seq<(u128, Seq<u128>)>,
    after: Seq<(u128, Seq<u128>)>,
    pairs: Seq<DedupPair>,
    pair: DedupPair,
    at: int,
)
    requires
        groups_of(groups, pairs),
        0 <= at <= groups.len(),
        forall|i: int| 0 <= i < at ==> (#[trigger] groups[i]).0 != pair.canonical_id,
        at < groups.len() ==> groups[at].0 == pair.canonical_id && after == groups.update(
            at,
            (pair.canonical_id, groups[at].1.push(pair.dup_id)),
        ),
        at == groups.len() ==> after == groups.push((pair.canonical_id, seq![pair.dup_id])),
    ensures
        groups_of(after, pairs.push(pair)),
{
    let all = pairs.push(pair);
    assert(all.drop_last() =~= pairs);
    assert forall|i: int, j: int| 0 <= i < j < after.len() implies (#[trigger] after[i]).0 != (
    #[trigger] after[j]).0 by {
        if j < groups.len() {
            assert(groups[i].0 != groups[j].0);
        } else {
            assert(groups[i].0 != pair.canonical_id);
        }
    }
    assert forall|i: int| 0 <= i < after.len() implies (#[trigger] after[i]).1 == dups_of(
        all,
        after[i].0,
    ) && after[i].1.len() > 0 by {
        if i < groups.len() {
            assert(groups[i].1 == dups_of(pairs, groups[i].0));
            if i != at && at < groups.len() {
                if i < at {
                    assert(groups[i].0 != groups[at].0);
                } else {
                    assert(groups[at].0 != groups[i].0);
                }
            }
        } else {
            assert forall|k: int| 0 <= k < pairs.len() implies (#[trigger] pairs[k]).canonical_id
                != pair.canonical_id by {
                let g = choose|g: int|
                    0 <= g < groups.len() && (#[trigger] groups[g]).0 == pairs[k].canonical_id;
                assert(groups[g].0 != pair.canonical_id);
            }
            lemma_dups_absent(pairs, pair.canonical_id);
            assert(dups_of(all, pair.canonical_id) =~= seq![pair.dup_id]);
        }
    }
    assert forall|k: int| 0 <= k < all.len() implies exists|i: int|
        0 <= i < after.len() && (#[trigger] after[i]).0 == (#[trigger] all[k]).canonical_id by {
        if k < pairs.len() {
            assert(all[k] == pairs[k]);
            let g = choose|g: int|
                0 <= g < groups.len() && (#[trigger] groups[g]).0 == pairs[k].canonical_id;
            assert(after[g].0 == all[k].canonical_id);
        } else {
            assert(after[at].0 == all[k].canonical_id);
        }
    }
    if at < groups.len() {
        lemma_dup_count_grows(groups, after, groups.len(), at);
    } else {
        lemma_dup_count_same(groups, after, groups.len());
    }
}

/// Groups duplicates by the upload they are duplicates of, so that each of
/// those is looked at once.
pub fn group_by_canonical(pairs: &Vec<DedupPair>) -> (r: Vec<Group>)
    ensures
        groups_of(group_views(r@), pairs@),
{
    let n: usize = pairs.len();
    let mut groups: Vec<Group> = Vec::new();
    assert(pairs@.take(0) =~= Seq::<DedupPair>::empty());
    for k in 0..n
        invariant
            n == pairs@.len(),
            groups_of(group_views(groups@), pairs@.take(k as int)),
    {
        let pair: DedupPair = pairs[k];
        let m: usize = groups.len();
        let ghost views = group_views(groups@);
        let mut at: usize = 0;
        while at < m && groups[at].canonical != pair.canonical_id
            invariant
                m == groups@.len(),
                at <= m,
                views == group_views(groups@),
                forall|i: int| 0 <= i < at ==> (#[trigger] views[i]).0 != pair.canonical_id,
            decreases m - at,
        {
            at += 1;
        }
        if at < m {
            let mut dups: Vec<u128> = groups[at].dups.clone();
            assert(dups@ =~= views[at as int].1);
            dups.push(pair.dup_id);
            groups.set(at, Group { canonical: pair.canonical_id, dups });
            assert(group_views(groups@) =~= views.update(
                at as int,
                (pair.canonical_id, views[at as int].1.push(pair.dup_id)),
            ));
        } else {
            let mut dups: Vec<u128> = Vec::new();
            dups.push(pair.dup_id);
            assert(dups@ =~= seq![pair.dup_id]);
            groups.push(Group { canonical: pair.canonical_id, dups });
            assert(group_views(groups@) =~= views.push((pair.canonical_id, seq![pair.dup_id])));
        }
        proof {
            assert(pairs@.take(k + 1) =~= pairs@.take(k as int).push(pair));
            lemma_add_pair(
                views,
                group_views(groups@),
                pairs@.take(k as int),
                pair,
                at as int,
            );
        }
    }
    assert(pairs@.take(n as int) =~= pairs@);
    groups
}

// ---------------------------------------------------------------- the run

/// What became of a duplicate.
#[derive(Debug, Clone, Copy, PartialEq, Eq, Structural)]
pub enum LinkOutcome {
    /// It is a link to the newest copy now, or would be in a dry run.
    Linked,
    /// It was one before.
    AlreadyLinked,
    Skipped,
    Failed,
}

/// What stands at a path.
#[derive(Debug, Clone, Copy, PartialEq, Eq, Structural)]
pub enum FileState {
    Missing,
    Symlink,
    Plain,
}

/// What was found out or done.
#[derive(Debug, Clone, Copy, PartialEq, Eq, Structural)]
pub enum LinkEvent {
    /// What stands at the path that was looked at.
    State(FileState),
    /// The full path of the newest copy is known.
    Resolved,
    /// Whether the link leads to the newest copy.
    LeadsToCanonical(bool),
    /// The link was made.
    Linked,
    /// The step failed.
    Failed,
}

/// What is to be done next.
#[derive(Debug, Clone, Copy, PartialEq, Eq, Structural)]
pub enum LinkStage {
    /// Look at the newest copy of a group.
    Canonical { group: usize },
    /// Find the full path of the newest copy.
    Resolving { group: usize },
    /// Look at a duplicate.
    Duplicate { group: usize, dup: usize },
    /// Find out where the duplicate, a link, leads to.
    Target { group: usize, dup: usize },
    /// Replace the duplicate by a link.
    Linking { group: usize, dup: usize },
    Finished,
}

/// The stage after a whole group.
pub open spec fn after_group(groups: Seq<(u128, Seq<u128>)>, group: usize) -> LinkStage {
    if group + 1 < groups.len() {
        LinkStage::Canonical { group: (group + 1) as usize }
    } else {
        LinkStage::Finished
    }
}

/// The stage after a duplicate.
pub open spec fn after_dup(
    groups: Seq<(u128, Seq<u128>)>,
    group: usize,
    dup: usize,
) -> LinkStage {
    if dup + 1 < groups[group as int].1.len() {
        LinkStage::Duplicate { group, dup: (dup + 1) as usize }
    } else {
        after_group(groups, group)
    }
}

/// The same outcome for every duplicate of a group.
pub open spec fn for_all_of(
    groups: Seq<(u128, Seq<u128>)>,
    group: usize,
    outcome: LinkOutcome,
) -> Seq<LinkOutcome> {
    Seq::new(groups[group as int].1.len(), |i: int| outcome)
}

/// What an event leads to: the next stage and the outcomes that it settles.
/// A group whose newest copy is itself a link is skipped; one whose newest
/// copy is missing or has no full path fails.
pub open spec fn link_step(
    groups: Seq<(u128, Seq<u128>)>,
    dry_run: bool,
    stage: LinkStage,
    event: LinkEvent,
) -> (LinkStage, Seq<LinkOutcome>) {
    match stage {
        LinkStage::Canonical { group } => if event == LinkEvent::State(FileState::Plain) {
            (LinkStage::Resolving { group }, Seq::empty())
        } else if event == LinkEvent::State(FileState::Symlink) {
            (after_group(groups, group), for_all_of(groups, group, LinkOutcome::Skipped))
        } else {
            (after_group(groups, group), for_all_of(groups, group, LinkOutcome::Failed))
        },
        LinkStage::Resolving { group } => if event == LinkEvent::Resolved {
            (LinkStage::Duplicate { group, dup: 0 }, Seq::empty())
        } else {
            (after_group(groups, group), for_all_of(groups, group, LinkOutcome::Failed))
        },
        LinkStage::Duplicate { group, dup } => if event == LinkEvent::State(FileState::Symlink) {
            (LinkStage::Target { group, dup }, Seq::empty())
        } else if event == LinkEvent::State(FileState::Plain) {
            if dry_run {
                (after_dup(groups, group, dup), seq![LinkOutcome::Linked])
            } else {
                (LinkStage::Linking { group, dup }, Seq::empty())
            }
        } else {
            (after_dup(groups, group, dup), seq![LinkOutcome::Skipped])
        },
        LinkStage::Target { group, dup } => (
            after_dup(groups, group, dup),
            if event == LinkEvent::LeadsToCanonical(true) {
                seq![LinkOutcome::AlreadyLinked]
            } else {
                seq![LinkOutcome::Skipped]
            },
        ),
        LinkStage::Linking { group, dup } => (
            after_dup(groups, group, dup),
            if event == LinkEvent::Linked {
                seq![LinkOutcome::Linked]
            } else {
                seq![LinkOutcome::Failed]
            },
        ),
        LinkStage::Finished => (LinkStage::Finished, Seq::empty()),
    }
}

/// The stage speaks of groups and duplicates that there are.
pub open spec fn stage_ok(groups: Seq<(u128, Seq<u128>)>, stage: LinkStage) -> bool {
    match stage {
        LinkStage::Canonical { group } => group < groups.len(),
        LinkStage::Resolving { group } => group < groups.len() && groups[group as int].1.len() > 0,
        LinkStage::Duplicate { group, dup } => group < groups.len() && dup
            < groups[group as int].1.len(),
        LinkStage::Target { group, dup } => group < groups.len() && dup
            < groups[group as int].1.len(),
        LinkStage::Linking { group, dup } => group < groups.len() && dup
            < groups[group as int].1.len(),
        LinkStage::Finished => true,
    }
}

/// How many duplicates are settled before a stage.
pub open spec fn settled_before(groups: Seq<(u128, Seq<u128>)>, stage: LinkStage) -> nat {
    match stage {
        LinkStage::Canonical { group } => dup_count(groups, group as nat),
        LinkStage::Resolving { group } => dup_count(groups, group as nat),
        LinkStage::Duplicate { group, dup } => dup_count(groups, group as nat) + dup as nat,
        LinkStage::Target { group, dup } => dup_count(groups, group as nat) + dup as nat,
        LinkStage::Linking { group, dup } => dup_count(groups, group as nat) + dup as nat,
        LinkStage::Finished => dup_count(groups, groups.len()),
    }
}

/// A step settles as many duplicates as it moves on by.
pub proof fn lemma_step_settles(
    groups: Seq<(u128, Seq<u128>)>,
    dry_run: bool,
    stage: LinkStage,
    event: LinkEvent,
)
    requires
        stage_ok(groups, stage),
        groups.len() <= usize::MAX,
        forall|i: int|
            0 <= i < groups.len() ==> 0 < (#[trigger] groups[i]).1.len() <= usize::MAX,
    ensures
        stage_ok(groups, link_step(groups, dry_run, stage, event).0),
        settled_before(groups, link_step(groups, dry_run, stage, event).0) == settled_before(
            groups,
            stage,
        ) + link_step(groups, dry_run, stage, event).1.len(),
{
    match stage {
        LinkStage::Canonical { group } => {
            assert(groups[group as int].1.len() > 0);
            assert(dup_count(groups, (group + 1) as nat) == dup_count(groups, group as nat)
                + groups[group as int].1.len());
        },
        LinkStage::Resolving { group } => {
            assert(dup_count(groups, (group + 1) as nat) == dup_count(groups, group as nat)
                + groups[group as int].1.len());
        },
        LinkStage::Duplicate { group, dup } => {
            assert(dup_count(groups, (group + 1) as nat) == dup_count(groups, group as nat)
                + groups[group as int].1.len());
        },
        LinkStage::Target { group, dup } => {
            assert(dup_count(groups, (group + 1) as nat) == dup_count(groups, group as nat)
                + groups[group as int].1.len());
        },
        LinkStage::Linking { group, dup } => {
            assert(dup_count(groups, (group + 1) as nat) == dup_count(groups, group as nat)
                + groups[group as int].1.len());
        },
        LinkStage::Finished => {},
    }
}

/// How often an outcome occurs.
pub open spec fn link_count(outcomes: Seq<LinkOutcome>, kind: LinkOutcome) -> nat
    decreases outcomes.len(),
{
    if outcomes.len() == 0 {
        0
    } else {
        link_count(outcomes.drop_last(), kind) + (if outcomes.last() == kind {
            1nat
        } else {
            0nat
        })
    }
}

/// Every outcome is counted under exactly one heading.
pub proof fn lemma_every_link_counted(outcomes: Seq<LinkOutcome>)
    ensures
        link_count(outcomes, LinkOutcome::Linked) + link_count(outcomes, LinkOutcome::AlreadyLinked)
            + link_count(outcomes, LinkOutcome::Skipped) + link_count(outcomes, LinkOutcome::Failed)
            == outcomes.len(),
    decreases outcomes.len(),
{
    if outcomes.len() > 0 {
        lemma_every_link_counted(outcomes.drop_last());
    }
}

fn count_links(outcomes: &Vec<LinkOutcome>, kind: LinkOutcome) -> (r: usize)
    ensures
        r == link_count(outcomes@, kind),
{
    let n: usize = outcomes.len();
    let mut c: usize = 0;
    for i in 0..n
        invariant
            n == outcomes@.len(),
            c <= i,
            c == link_count(outcomes@.take(i as int), kind),
    {
        assert(outcomes@.take(i + 1).drop_last() =~= outcomes@.take(i as int));
        if outcomes[i] == kind {
            c += 1;
        }
    }
    assert(outcomes@.take(n as int) =~= outcomes@);
    c
}

/// The closing line of a run.
pub open spec fn dedup_summary(outcomes: Seq<LinkOutcome>, dry_run: bool) -> Seq<char> {
    "Done: "@ + text::decimal(link_count(outcomes, LinkOutcome::Linked)) + " file(s) "@ + (
    if dry_run {
        "would be linked"@
    } else {
        "linked"@
    }) + ", "@ + text::decimal(link_count(outcomes, LinkOutcome::AlreadyLinked))
        + " already linked, "@ + text::decimal(link_count(outcomes, LinkOutcome::Skipped))
        + " skipped, "@ + text::decimal(link_count(outcomes, LinkOutcome::Failed)) + " error(s)."@
}

/// A run through all groups of duplicates.
pub struct DedupRun {
    groups: Vec<Group>,
    dry_run: bool,
    stage: LinkStage,
    outcomes: Vec<LinkOutcome>,
}

impl DedupRun {
    /// The groups of duplicates.
    pub closed spec fn groups(&self) -> Seq<(u128, Seq<u128>)> {
        group_views(self.groups@)
    }

    /// Whether links are only counted, not made.
    pub closed spec fn dry_run(&self) -> bool {
        self.dry_run
    }

    /// What is to be done next.
    pub closed spec fn stage(&self) -> LinkStage {
        self.stage
    }

    /// What became of the duplicates so far.
    pub closed spec fn outcomes(&self) -> Seq<LinkOutcome> {
        self.outcomes@
    }

    pub closed spec fn wf(&self) -> bool {
        &&& stage_ok(self.groups(), self.stage)
        &&& forall|i: int| 0 <= i < self.groups().len() ==> (#[trigger] self.groups()[i]).1.len() > 0
        &&& self.outcomes@.len() == settled_before(self.groups(), self.stage)
    }

    /// A run over pairs of duplicates and newest copies.
    pub fn new(pairs: &Vec<DedupPair>, dry_run: bool) -> (r: DedupRun)
        ensures
            r.wf(),
            groups_of(r.groups(), pairs@),
            r.dry_run() == dry_run,
            r.outcomes() == Seq::<LinkOutcome>::empty(),
            r.stage() == (if pairs@.len() > 0 {
                LinkStage::Canonical { group: 0 }
            } else {
                LinkStage::Finished
            }),
    {
        let groups = group_by_canonical(pairs);
        let n: usize = groups.len();
        let ghost views = group_views(groups@);
        proof {
            assert(views.len() == n);
            if pairs@.len() > 0 {
                let g = choose|g: int|
                    0 <= g < views.len() && (#[trigger] views[g]).0 == pairs@[0].canonical_id;
                assert(n > 0);
            } else if n > 0 {
                assert(views[0].1 == dups_of(pairs@, views[0].0));
            }
        }
        let stage = if n > 0 {
            LinkStage::Canonical { group: 0 }
        } else {
            LinkStage::Finished
        };
        DedupRun { groups, dry_run, stage, outcomes: Vec::new() }
    }

    /// What is to be done next. At the end every duplicate has an outcome.
    pub fn next(&self) -> (r: LinkStage)
        requires
            self.wf(),
        ensures
            r == self.stage(),
            stage_ok(self.groups(), r),
            r == LinkStage::Finished ==> self.outcomes().len() == dup_count(
                self.groups(),
                self.groups().len(),
            ),
    {
        self.stage
    }

    /// The upload that a group's duplicates are duplicates of.
    pub fn canonical(&self, group: usize) -> (r: u128)
        requires
            group < self.groups().len(),
        ensures
            r == self.groups()[group as int].0,
    {
        self.groups[group].canonical
    }

    /// A duplicate of a group.
    pub fn duplicate(&self, group: usize, dup: usize) -> (r: u128)
        requires
            group < self.groups().len(),
            dup < self.groups()[group as int].1.len(),
        ensures
            r == self.groups()[group as int].1[dup as int],
    {
        assert(self.groups()[group as int] == self.groups@[group as int]@);
        self.groups[group].dups[dup]
    }

    fn skip_group(&mut self, group: usize, outcome: LinkOutcome)
        requires
            group < old(self).groups@.len(),
        ensures
            final(self).groups == old(self).groups,
            final(self).dry_run == old(self).dry_run,
            final(self).stage == after_group(old(self).groups(), group),
            final(self).outcomes@ == old(self).outcomes@ + for_all_of(
                old(self).groups(),
                group,
                outcome,
            ),
    {
        let n: usize = self.groups.len();
        let m: usize = self.groups[group].dups.len();
        let ghost groups = self.groups();
        assert(groups[group as int] == self.groups@[group as int]@);
        let ghost all = for_all_of(groups, group, outcome);
        for i in 0..m
            invariant
                m == all.len(),
                self.groups == old(self).groups,
                self.dry_run == old(self).dry_run,
                all == for_all_of(old(self).groups(), group, outcome),
                self.outcomes@ == old(self).outcomes@ + all.take(i as int),
        {
            self.outcomes.push(outcome);
            assert(self.outcomes@ =~= old(self).outcomes@ + all.take(i + 1));
        }
        assert(all.take(m as int) =~= all);
        self.stage = if group < n - 1 {
            LinkStage::Canonical { group: group + 1 }
        } else {
            LinkStage::Finished
        };
    }

    fn settle_dup(&mut self, group: usize, dup: usize, outcome: LinkOutcome)
        requires
            group < old(self).groups@.len(),
            dup < old(self).groups@[group as int].dups@.len(),
        ensures
            final(self).groups == old(self).groups,
            final(self).dry_run == old(self).dry_run,
            final(self).stage == after_dup(old(self).groups(), group, dup),
            final(self).outcomes@ == old(self).outcomes@ + seq![outcome],
    {
        let n: usize = self.groups.len();
        let m: usize = self.groups[group].dups.len();
        assert(self.groups()[group as int] == self.groups@[group as int]@);
        self.outcomes.push(outcome);
        assert(self.outcomes@ =~= old(self).outcomes@ + seq![outcome]);
        self.stage = if dup < m - 1 {
            LinkStage::Duplicate { group, dup: dup + 1 }
        } else if group < n - 1 {
            LinkStage::Canonical { group: group + 1 }
        } else {
            LinkStage::Finished
        };
    }

    /// Takes in what was found out or done.
    pub fn advance(&mut self, event: LinkEvent)
        requires
            old(self).wf(),
        ensures
            final(self).wf(),
            final(self).groups() == old(self).groups(),
            final(self).dry_run() == old(self).dry_run(),
            ({
                let (stage, settled) = link_step(
                    old(self).groups(),
                    old(self).dry_run(),
                    old(self).stage(),
                    event,
                );
                &&& final(self).stage() == stage
                &&& final(self).outcomes() == old(self).outcomes() + settled
            }),
    {
        proof {
            assert forall|i: int| 0 <= i < self.groups().len() implies 0 < (
            #[trigger] self.groups()[i]).1.len() <= usize::MAX by {
                assert(self.groups()[i] == self.groups@[i]@);
                assert(self.groups@[i].dups@.len() == self.groups@[i].dups.len());
            }
            assert(self.groups@.len() == self.groups.len());
            lemma_step_settles(self.groups(), self.dry_run, self.stage, event);
        }
        match self.stage {
            LinkStage::Canonical { group } => if event == LinkEvent::State(FileState::Plain) {
                self.stage = LinkStage::Resolving { group };
            } else if event == LinkEvent::State(FileState::Symlink) {
                self.skip_group(group, LinkOutcome::Skipped);
            } else {
                self.skip_group(group, LinkOutcome::Failed);
            },
            LinkStage::Resolving { group } => if event == LinkEvent::Resolved {
                self.stage = LinkStage::Duplicate { group, dup: 0 };
            } else {
                self.skip_group(group, LinkOutcome::Failed);
            },
            LinkStage::Duplicate { group, dup } => {
                assert(self.groups()[group as int] == self.groups@[group as int]@);
                if event == LinkEvent::State(FileState::Symlink) {
                    self.stage = LinkStage::Target { group, dup };
                } else if event == LinkEvent::State(FileState::Plain) {
                    if self.dry_run {
                        self.settle_dup(group, dup, LinkOutcome::Linked);
                    } else {
                        self.stage = LinkStage::Linking { group, dup };
                    }
                } else {
                    self.settle_dup(group, dup, LinkOutcome::Skipped);
                }
            },
            LinkStage::Target { group, dup } => {
                assert(self.groups()[group as int] == self.groups@[group as int]@);
                if event == LinkEvent::LeadsToCanonical(true) {
                    self.settle_dup(group, dup, LinkOutcome::AlreadyLinked);
                } else {
                    self.settle_dup(group, dup, LinkOutcome::Skipped);
                }
            },
            LinkStage::Linking { group, dup } => {
                assert(self.groups()[group as int] == self.groups@[group as int]@);
                if event == LinkEvent::Linked {
                    self.settle_dup(group, dup, LinkOutcome::Linked);
                } else {
                    self.settle_dup(group, dup, LinkOutcome::Failed);
                }
            },
            LinkStage::Finished => {},
        }
        assert(self.outcomes@ =~= old(self).outcomes@ + link_step(
            old(self).groups(),
            old(self).dry_run(),
            old(self).stage(),
            event,
        ).1);
    }

    /// The closing line of the run.
    pub fn summary(&self) -> (r: String)
        ensures
            r@ == dedup_summary(self.outcomes(), self.dry_run()),
    {
        let mut out = "Done: ".to_owned();
        let linked = decimal_text(count_links(&self.outcomes, LinkOutcome::Linked) as u64);
        out.append(linked.as_str());
        out.append(" file(s) ");
        if self.dry_run {
            out.append("would be linked");
        } else {
            out.append("linked");
        }
        out.append(", ");
        let already = decimal_text(count_links(&self.outcomes, LinkOutcome::AlreadyLinked) as u64);
        out.append(already.as_str());
        out.append(" already linked, ");
        let skipped = decimal_text(count_links(&self.outcomes, LinkOutcome::Skipped) as u64);
        out.append(skipped.as_str());
        out.append(" skipped, ");
        let errors = decimal_text(count_links(&self.outcomes, LinkOutcome::Failed) as u64);
        out.append(errors.as_str());
        out.append(" error(s).");
        out
    }
}

/// Where a link is made before it takes the place of a file.
pub fn temp_link_path(path: &str) -> (r: String)
    ensures
        r@ == path@ + ".dedup-tmp"@,
{
    let mut out = path.to_owned();
    out.append(".dedup-tmp");
    out
}

/// What a dry run says of a duplicate.
pub fn would_link_line(dup_path: &str, canonical_path: &str) -> (r: String)
    ensures
        r@ == "Would link "@ + dup_path@ + " -> "@ + canonical_path@,
{
    let mut out = "Would link ".to_owned();
    out.append(dup_path);
    out.append(" -> ");
    out.append(canonical_path);
    out
}

// ---------------------------------------------------------------- laws

/// A file is replaced by a link only where it is a file of its own, and never
/// in a dry run.
pub proof fn lemma_what_is_replaced(
    groups: Seq<(u128, Seq<u128>)>,
    dry_run: bool,
    stage: LinkStage,
    event: LinkEvent,
)
    ensures
        link_step(groups, dry_run, stage, event).0 is Linking ==> {
            &&& !dry_run
            &&& stage is Duplicate
            &&& event == LinkEvent::State(FileState::Plain)
        },
        link_step(groups, dry_run, stage, event).0 matches LinkStage::Linking { group, dup }
            ==> stage == (LinkStage::Duplicate { group, dup }),
        stage matches LinkStage::Duplicate { group, dup } ==> event == LinkEvent::State(
            FileState::Plain,
        ) && !dry_run ==> link_step(groups, dry_run, stage, event).0 == (LinkStage::Linking {
            group,
            dup,
        }),
{
}

/// What becomes of one duplicate: linked where the link was made or, in a dry
/// run, would be; already linked where its link leads to the newest copy;
/// failed where the link could not be made; skipped else.
pub proof fn lemma_outcome_of_a_duplicate(
    groups: Seq<(u128, Seq<u128>)>,
    dry_run: bool,
    group: usize,
    dup: usize,
    event: LinkEvent,
)
    ensures
        ({
            let looked = link_step(groups, dry_run, LinkStage::Duplicate { group, dup }, event);
            let target = link_step(groups, dry_run, LinkStage::Target { group, dup }, event);
            let linked = link_step(groups, dry_run, LinkStage::Linking { group, dup }, event);
            &&& event == LinkEvent::State(FileState::Plain) && dry_run ==> looked.1 == seq![
                LinkOutcome::Linked,
            ]
            &&& event == LinkEvent::State(FileState::Symlink) ==> looked == (
                LinkStage::Target { group, dup },
                Seq::<LinkOutcome>::empty(),
            )
            &&& event != LinkEvent::State(FileState::Plain) && event != LinkEvent::State(
                FileState::Symlink,
            ) ==> looked.1 == seq![LinkOutcome::Skipped]
            &&& looked.1.len() > 0 ==> looked.0 == after_dup(groups, group, dup)
            &&& target.0 == after_dup(groups, group, dup)
            &&& linked.0 == after_dup(groups, group, dup)
            &&& event == LinkEvent::LeadsToCanonical(true) ==> target.1 == seq![
                LinkOutcome::AlreadyLinked,
            ]
            &&& event != LinkEvent::LeadsToCanonical(true) ==> target.1 == seq![
                LinkOutcome::Skipped,
            ]
            &&& event == LinkEvent::Linked ==> linked.1 == seq![LinkOutcome::Linked]
            &&& event != LinkEvent::Linked ==> linked.1 == seq![LinkOutcome::Failed]
        }),
{
}

/// Nothing of a group is touched unless its newest copy is a file of its own
/// whose full path is known: where that copy is a link, all its duplicates are
/// skipped, and where it is missing or has no full path, all of them fail.
pub proof fn lemma_newest_copy_decides(
    groups: Seq<(u128, Seq<u128>)>,
    dry_run: bool,
    group: usize,
    event: LinkEvent,
    i: int,
)
    requires
        0 <= i < groups[group as int].1.len(),
    ensures
        ({
            let looked = link_step(groups, dry_run, LinkStage::Canonical { group }, event);
            let resolved = link_step(groups, dry_run, LinkStage::Resolving { group }, event);
            let n = groups[group as int].1.len();
            &&& event == LinkEvent::State(FileState::Plain) ==> looked == (
                LinkStage::Resolving { group },
                Seq::<LinkOutcome>::empty(),
            )
            &&& event == LinkEvent::State(FileState::Symlink) ==> looked.1.len() == n && looked.1[i]
                == LinkOutcome::Skipped && !(looked.0 is Duplicate)
            &&& looked.1.len() > 0 ==> looked.0 == after_group(groups, group)
            &&& resolved.1.len() > 0 ==> resolved.0 == after_group(groups, group)
            &&& event != LinkEvent::State(FileState::Plain) && event != LinkEvent::State(
                FileState::Symlink,
            ) ==> looked.1.len() == n && looked.1[i] == LinkOutcome::Failed && !(
            looked.0 is Duplicate)
            &&& event == LinkEvent::Resolved ==> resolved == (
                LinkStage::Duplicate { group, dup: 0 },
                Seq::<LinkOutcome>::empty(),
            )
            &&& event != LinkEvent::Resolved ==> resolved.1.len() == n && resolved.1[i]
                == LinkOutcome::Failed && !(resolved.0 is Duplicate)
        }),
{
}

/// The duplicates of a group are gone through one by one, and the groups one
/// by one.
pub proof fn lemma_order_of_the_run(groups: Seq<(u128, Seq<u128>)>, group: usize, dup: usize)
    requires
        groups.len() <= usize::MAX,
        group < groups.len(),
        groups[group as int].1.len() <= usize::MAX,
    ensures
        dup + 1 < groups[group as int].1.len() ==> after_dup(groups, group, dup) == (
        LinkStage::Duplicate { group, dup: (dup + 1) as usize }),
        dup + 1 >= groups[group as int].1.len() ==> after_dup(groups, group, dup) == after_group(
            groups,
            group,
        ),
        group + 1 < groups.len() ==> after_group(groups, group) == (LinkStage::Canonical {
            group: (group + 1) as usize,
        }),
        group + 1 == groups.len() ==> after_group(groups, group) is Finished,
{
}

/// The duplicates of an upload are those of the pairs that name it, in order
/// and each as often as it is named.
pub proof fn lemma_duplicates_of_pairs(a: Seq<DedupPair>, b: Seq<DedupPair>, pair: DedupPair, id: u128)
    ensures
        dups_of(a + b, id) == dups_of(a, id) + dups_of(b, id),
        dups_of(seq![pair], id) == (if pair.canonical_id == id {
            seq![pair.dup_id]
        } else {
            Seq::empty()
        }),
    decreases b.len(),
{
    let one = seq![pair];
    assert(one.drop_last() =~= Seq::<DedupPair>::empty());
    assert(dups_of(one.drop_last(), id) =~= Seq::<u128>::empty());
    assert(dups_of(one, id) =~= (if pair.canonical_id == id {
        seq![pair.dup_id]
    } else {
        Seq::empty()
    }));
    if b.len() == 0 {
        assert(a + b =~= a);
        assert(dups_of(a, id) + dups_of(b, id) =~= dups_of(a, id));
    } else {
        lemma_duplicates_of_pairs(a, b.drop_last(), pair, id);
        assert((a + b).drop_last() =~= a + b.drop_last());
        assert((a + b).last() == b.last());
        assert(dups_of(a + b, id) =~= dups_of(a, id) + dups_of(b, id));
    }
}

/// One more outcome adds one to its own count and to no other.
pub proof fn lemma_each_link_counts_once(
    outcomes: Seq<LinkOutcome>,
    one: LinkOutcome,
    kind: LinkOutcome,
)
    ensures
        link_count(Seq::empty(), kind) == 0,
        link_count(outcomes.push(one), kind) == link_count(outcomes, kind) + (if one == kind {
            1nat
        } else {
            0nat
        }),
{
    assert(outcomes.push(one).drop_last() =~= outcomes);
}

/// Grouping loses no pair and adds none: each duplicate stands in the group of
/// its upload, what stands in a group is a duplicate of its upload, and no
/// upload has two groups.
pub proof fn lemma_groups_hold_the_pairs(
    groups: Seq<(u128, Seq<u128>)>,
    pairs: Seq<DedupPair>,
    k: int,
    i: int,
    d: int,
)
    requires
        groups_of(groups, pairs),
    ensures
        0 <= k < pairs.len() ==> exists|g: int|
            0 <= g < groups.len() && (#[trigger] groups[g]).0 == pairs[k].canonical_id
                && groups[g].1.contains(pairs[k].dup_id),
        0 <= i < groups.len() && 0 <= d < groups[i].1.len() ==> exists|m: int|
            0 <= m < pairs.len() && (#[trigger] pairs[m]).canonical_id == groups[i].0
                && pairs[m].dup_id == groups[i].1[d],
        0 <= i < groups.len() && 0 <= k < groups.len() && i != k ==> groups[i].0 != groups[k].0,
        dup_count(groups, groups.len()) == pairs.len(),
{
    if 0 <= k < pairs.len() {
        let g = choose|g: int|
            0 <= g < groups.len() && (#[trigger] groups[g]).0 == pairs[k].canonical_id;
        lemma_pair_is_a_duplicate(pairs, k);
        assert(groups[g].1 == dups_of(pairs, groups[g].0));
    }
    if 0 <= i < groups.len() && 0 <= d < groups[i].1.len() {
        assert(groups[i].1 == dups_of(pairs, groups[i].0));
        lemma_duplicate_is_of_a_pair(pairs, groups[i].0, d);
    }
    if 0 <= i < groups.len() && 0 <= k < groups.len() && i != k {
        if i < k {
            assert(groups[i].0 != groups[k].0);
        } else {
            assert(groups[k].0 != groups[i].0);
        }
    }
}

proof fn lemma_pair_is_a_duplicate(pairs: Seq<DedupPair>, k: int)
    requires
        0 <= k < pairs.len(),
    ensures
        dups_of(pairs, pairs[k].canonical_id).contains(pairs[k].dup_id),
    decreases pairs.len(),
{
    let id = pairs[k].canonical_id;
    let front = pairs.drop_last();
    let before = dups_of(front, id);
    let all = dups_of(pairs, id);
    if k < front.len() {
        assert(front[k] == pairs[k]);
        lemma_pair_is_a_duplicate(front, k);
        let j = choose|j: int| 0 <= j < before.len() && before[j] == pairs[k].dup_id;
        assert(all[j] == pairs[k].dup_id);
    } else {
        assert(all[before.len() as int] == pairs[k].dup_id);
    }
}

proof fn lemma_duplicate_is_of_a_pair(pairs: Seq<DedupPair>, id: u128, d: int)
    requires
        0 <= d < dups_of(pairs, id).len(),
    ensures
        exists|m: int|
            0 <= m < pairs.len() && (#[trigger] pairs[m]).canonical_id == id && pairs[m].dup_id
                == dups_of(pairs, id)[d],
    decreases pairs.len(),
{
    if pairs.len() > 0 {
        let front = pairs.drop_last();
        let before = dups_of(front, id);
        if d < before.len() {
            lemma_duplicate_is_of_a_pair(front, id, d);
            let m = choose|m: int|
                0 <= m < front.len() && (#[trigger] front[m]).canonical_id == id && front[m].dup_id
                    == before[d];
            assert(pairs[m] == front[m]);
        } else {
            assert(pairs[pairs.len() - 1].dup_id == dups_of(pairs, id)[d]);
        }
    }
}

/// The closing line tells the four counts in this order, and says of a dry run
/// what would have been done.
pub proof fn lemma_summary_tells_the_counts(outcomes: Seq<LinkOutcome>)
    ensures
        dedup_summary(outcomes, false) == "Done: "@ + text::decimal(
            link_count(outcomes, LinkOutcome::Linked),
        ) + " file(s) "@ + "linked"@ + ", "@ + text::decimal(
            link_count(outcomes, LinkOutcome::AlreadyLinked),
        ) + " already linked, "@ + text::decimal(link_count(outcomes, LinkOutcome::Skipped))
            + " skipped, "@ + text::decimal(link_count(outcomes, LinkOutcome::Failed))
            + " error(s)."@,
        dedup_summary(outcomes, true) == "Done: "@ + text::decimal(
            link_count(outcomes, LinkOutcome::Linked),
        ) + " file(s) "@ + "would be linked"@ + ", "@ + text::decimal(
            link_count(outcomes, LinkOutcome::AlreadyLinked),
        ) + " already linked, "@ + text::decimal(link_count(outcomes, LinkOutcome::Skipped))
            + " skipped, "@ + text::decimal(link_count(outcomes, LinkOutcome::Failed))
            + " error(s)."@,
{
}

} // verus!
