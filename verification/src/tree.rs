//! A model of a directory tree, and what the startup scan makes of one.

use vstd::multiset::Multiset;
use vstd::prelude::*;

use crate::baseline::{
    scan_of, scan_run, tells_of, EntryKind, ScanAnswer, ScanModel, ScanPhase, MAX_FILES_SCANNED,
};
use crate::detector::DetectorModel;

verus! {

/// A directory with all that is below it, a file, or something else, such as a link.
pub enum Node {
    Directory { path: Seq<u8>, readable: bool, entries: Seq<Node> },
    File { path: Seq<u8> },
    Other { path: Seq<u8> },
}

pub open spec fn path_of(node: Node) -> Seq<u8> {
    match node {
        Node::Directory { path, .. } => path,
        Node::File { path } => path,
        Node::Other { path } => path,
    }
}

pub open spec fn kind_of(node: Node) -> EntryKind {
    match node {
        Node::Directory { .. } => EntryKind::Directory,
        Node::File { .. } => EntryKind::File,
        Node::Other { .. } => EntryKind::Other,
    }
}

/// The regular files that can be reached in `node` through directories that can be
/// listed.
pub open spec fn files_in(node: Node) -> Multiset<Seq<u8>>
    decreases node,
{
    match node {
        Node::Directory { readable, entries, .. } => if readable {
            files_in_all(entries)
        } else {
            Multiset::empty()
        },
        Node::File { path } => Multiset::singleton(path),
        Node::Other { .. } => Multiset::empty(),
    }
}

/// The regular files that can be reached in any of `nodes`.
pub open spec fn files_in_all(nodes: Seq<Node>) -> Multiset<Seq<u8>>
    decreases nodes,
{
    if nodes.len() == 0 {
        Multiset::empty()
    } else {
        files_in_all(nodes.subrange(0, nodes.len() - 1)).add(files_in(nodes[nodes.len() - 1]))
    }
}

/// How many answers a scan waits for, at most, from when it meets `node`.
pub open spec fn steps_for(node: Node) -> nat
    decreases node,
{
    match node {
        Node::Directory { readable, entries, .. } => if readable {
            3 + steps_for_all(entries)
        } else {
            3
        },
        Node::File { .. } => 3,
        Node::Other { .. } => 1,
    }
}

/// How many answers a scan waits for, at most, from when it meets the first of `nodes`.
pub open spec fn steps_for_all(nodes: Seq<Node>) -> nat
    decreases nodes,
{
    if nodes.len() == 0 {
        0
    } else {
        steps_for_all(nodes.subrange(0, nodes.len() - 1)) + steps_for(nodes[nodes.len() - 1])
    }
}

/// A scan of a tree: the nodes behind the directories that it still has to list, what is
/// left of the directory that it lists, and the files that it has met.
#[verifier::ext_equal]
pub struct Walk {
    pub scan: ScanModel,
    pub pending: Seq<Node>,
    pub listing: Seq<Node>,
    pub met: Multiset<Seq<u8>>,
}

/// A scan of `root` that has not begun.
pub open spec fn walk_of(root: Node, sample_bytes: usize, threshold: u64) -> Walk {
    Walk {
        scan: scan_of(path_of(root), sample_bytes, threshold),
        pending: seq![root],
        listing: Seq::empty(),
        met: Multiset::empty(),
    }
}

impl Walk {
    /// Whether `answer` is what the tree gives: a directory can be listed where it is
    /// readable, and its entries are told one by one. What can be read of a file is left
    /// open.
    pub open spec fn is_true(self, answer: ScanAnswer) -> bool {
        match self.scan.phase {
            ScanPhase::Open => answer is Opened <==> self.pending.last()->readable,
            ScanPhase::Next => if self.listing.len() > 0 {
                tells_of(answer, path_of(self.listing[0]), kind_of(self.listing[0]))
            } else {
                !(answer is Entry)
            },
            _ => true,
        }
    }

    /// The scan once the next entry was told.
    pub open spec fn after_entry(self, answer: ScanAnswer) -> Walk {
        if self.listing.len() == 0 || self.scan.scanned >= MAX_FILES_SCANNED {
            Walk { scan: self.scan.after(answer), ..self }
        } else {
            let node = self.listing[0];
            Walk {
                scan: self.scan.after(answer),
                listing: self.listing.drop_first(),
                pending: if node is Directory {
                    self.pending.push(node)
                } else {
                    self.pending
                },
                met: if node is File {
                    self.met.insert(path_of(node))
                } else {
                    self.met
                },
            }
        }
    }

    /// The scan once the action at hand has come to `answer`.
    pub open spec fn after(self, answer: ScanAnswer) -> Walk {
        match self.scan.phase {
            ScanPhase::Open => Walk {
                scan: self.scan.after(answer),
                pending: self.pending.drop_last(),
                listing: if answer is Opened {
                    self.pending.last()->entries
                } else {
                    Seq::empty()
                },
                met: self.met,
            },
            ScanPhase::Next => self.after_entry(answer),
            _ => Walk { scan: self.scan.after(answer), ..self },
        }
    }

    /// How many answers the scan still waits for, at most.
    pub open spec fn steps_left(self) -> int {
        steps_for_all(self.pending) - self.pending.len() + steps_for_all(self.listing)
            + match self.scan.phase {
            ScanPhase::Open => 0int,
            ScanPhase::Next => 1,
            ScanPhase::Measure => 3,
            ScanPhase::Sample => 2,
            ScanPhase::End { .. } => 0,
        }
    }
}

/// A scan of a tree after a series of answers.
pub open spec fn walk_run(start: Walk, answers: Seq<ScanAnswer>) -> Walk
    decreases answers.len(),
{
    if answers.len() == 0 {
        start
    } else {
        walk_run(start, answers.drop_last()).after(answers.last())
    }
}

/// Whether each of `answers` is what the tree gives.
pub open spec fn all_true(start: Walk, answers: Seq<ScanAnswer>) -> bool
    decreases answers.len(),
{
    answers.len() > 0 ==> all_true(start, answers.drop_last()) && walk_run(
        start,
        answers.drop_last(),
    ).is_true(answers.last())
}

proof fn all_but_the_first(nodes: Seq<Node>)
    requires
        nodes.len() > 0,
    ensures
        files_in_all(nodes) =~= files_in(nodes[0]).add(files_in_all(nodes.drop_first())),
        steps_for_all(nodes) == steps_for(nodes[0]) + steps_for_all(nodes.drop_first()),
    decreases nodes.len(),
{
    let n = nodes.len();
    let shorter = nodes.subrange(0, n - 1);
    let rest = nodes.drop_first();
    if n == 1 {
        assert(shorter =~= Seq::<Node>::empty());
        assert(rest =~= Seq::<Node>::empty());
    } else {
        all_but_the_first(shorter);
        assert(rest.subrange(0, rest.len() - 1) =~= shorter.drop_first());
        assert(rest[rest.len() - 1] == nodes[n - 1]);
    }
}

proof fn one_more(nodes: Seq<Node>, node: Node)
    ensures
        files_in_all(nodes.push(node)) == files_in_all(nodes).add(files_in(node)),
        steps_for_all(nodes.push(node)) == steps_for_all(nodes) + steps_for(node),
{
    let more = nodes.push(node);
    assert(more.subrange(0, more.len() - 1) =~= nodes);
}

/// What holds of a scan of `root` at any time: nothing is lost of what is below it.
spec fn accounts_for(w: Walk, root: Node) -> bool {
    &&& w.scan.is_valid()
    &&& w.scan.stack.len() == w.pending.len()
    &&& forall|i: int|
        0 <= i < w.pending.len() ==> (#[trigger] w.pending[i]) is Directory && path_of(w.pending[i])
            == w.scan.stack[i]
    &&& w.scan.scanned == w.met.len()
    &&& w.met.add(files_in_all(w.pending)).add(files_in_all(w.listing)) =~= files_in(root)
    &&& w.scan.phase is Open ==> w.listing.len() == 0
    &&& w.scan.phase == (ScanPhase::End { limit_reached: false }) ==> w.listing.len() == 0
        && w.pending.len() == 0
    &&& w.scan.phase == (ScanPhase::End { limit_reached: true }) ==> w.scan.scanned
        >= MAX_FILES_SCANNED
}

proof fn a_true_answer_loses_nothing(w: Walk, root: Node, answer: ScanAnswer)
    requires
        accounts_for(w, root),
        w.is_true(answer),
    ensures
        accounts_for(w.after(answer), root),
        !(w.scan.phase is End) ==> w.after(answer).steps_left() < w.steps_left(),
{
    let now = w.after(answer);
    match w.scan.phase {
        ScanPhase::Open => {
            let n = w.pending.len();
            let dir = w.pending[n - 1];
            assert(w.pending.subrange(0, n - 1) =~= w.pending.drop_last());
            assert(w.pending.last() == dir);
            assert(files_in_all(w.pending) == files_in_all(w.pending.drop_last()).add(
                files_in(dir),
            ));
            assert(files_in_all(Seq::<Node>::empty()) =~= Multiset::empty());
            assert(steps_for_all(w.pending) == steps_for_all(w.pending.drop_last()) + steps_for(
                dir,
            ));
            assert(steps_for(dir) == 3 + if dir->readable {
                steps_for_all(dir->entries)
            } else {
                0
            });
            assert(steps_for_all(w.listing) == 0);
        },
        ScanPhase::Next => {
            if w.listing.len() > 0 && w.scan.scanned < MAX_FILES_SCANNED {
                let node = w.listing[0];
                all_but_the_first(w.listing);
                one_more(w.pending, node);
            }
        },
        _ => {},
    }
}

proof fn a_scan_accounts_for_its_tree(
    root: Node,
    sample_bytes: usize,
    threshold: u64,
    answers: Seq<ScanAnswer>,
)
    requires
        root is Directory,
        all_true(walk_of(root, sample_bytes, threshold), answers),
    ensures
        accounts_for(walk_run(walk_of(root, sample_bytes, threshold), answers), root),
        walk_run(walk_of(root, sample_bytes, threshold), answers).scan.phase is End
            || answers.len() + walk_run(
            walk_of(root, sample_bytes, threshold),
            answers,
        ).steps_left() <= steps_for(root) - 1,
    decreases answers.len(),
{
    let start = walk_of(root, sample_bytes, threshold);
    if answers.len() == 0 {
        one_more(Seq::<Node>::empty(), root);
        assert(Seq::<Node>::empty().push(root) =~= start.pending);
        assert(files_in_all(Seq::<Node>::empty()) =~= Multiset::empty());
    } else {
        let before = answers.drop_last();
        a_scan_accounts_for_its_tree(root, sample_bytes, threshold, before);
        a_true_answer_loses_nothing(walk_run(start, before), root, answers.last());
    }
}

proof fn steps_do_not_run_out(w: Walk, root: Node)
    requires
        accounts_for(w, root),
        !(w.scan.phase is End),
    ensures
        w.steps_left() >= 1,
{
    steps_for_directories(w.pending);
}

proof fn steps_for_directories(nodes: Seq<Node>)
    requires
        forall|i: int| 0 <= i < nodes.len() ==> (#[trigger] nodes[i]) is Directory,
    ensures
        steps_for_all(nodes) >= 3 * nodes.len(),
    decreases nodes.len(),
{
    if nodes.len() > 0 {
        let shorter = nodes.subrange(0, nodes.len() - 1);
        assert forall|i: int| 0 <= i < shorter.len() implies (#[trigger] shorter[i]) is Directory by {
            assert(shorter[i] == nodes[i]);
        }
        steps_for_directories(shorter);
        assert(nodes[nodes.len() - 1] is Directory);
        assert(steps_for(nodes[nodes.len() - 1]) >= 3);
    }
}

/// A scan is what it is whatever the tree: the tree only tells which answers are true.
pub proof fn a_walk_is_a_scan(
    root: Node,
    sample_bytes: usize,
    threshold: u64,
    answers: Seq<ScanAnswer>,
    known: DetectorModel,
)
    ensures
        walk_run(walk_of(root, sample_bytes, threshold), answers).scan == scan_run(
            scan_of(path_of(root), sample_bytes, threshold),
            known,
            answers,
        ).0,
    decreases answers.len(),
{
    if answers.len() > 0 {
        a_walk_is_a_scan(root, sample_bytes, threshold, answers.drop_last(), known);
    }
}

/// A file is met exactly when the scan turns to it: each file that is met is measured.
pub proof fn every_met_file_is_measured(w: Walk, answer: ScanAnswer)
    requires
        w.is_true(answer),
        !(w.scan.phase is Measure),
    ensures
        w.after(answer).met == if w.after(answer).scan.phase is Measure {
            w.met.insert(w.after(answer).scan.file)
        } else {
            w.met
        },
{
}

/// A scan of a finite tree comes to an end: after so many answers, which the size of the
/// tree bounds, it is over.
pub proof fn a_scan_ends(
    root: Node,
    sample_bytes: usize,
    threshold: u64,
    answers: Seq<ScanAnswer>,
)
    requires
        root is Directory,
        all_true(walk_of(root, sample_bytes, threshold), answers),
        answers.len() >= steps_for(root),
    ensures
        walk_run(walk_of(root, sample_bytes, threshold), answers).scan.phase is End,
{
    let w = walk_run(walk_of(root, sample_bytes, threshold), answers);
    a_scan_accounts_for_its_tree(root, sample_bytes, threshold, answers);
    if !(w.scan.phase is End) {
        steps_do_not_run_out(w, root);
    }
}

/// A scan that is over has met every regular file that can be reached through directories
/// that can be listed, each as often as it is there, and nothing else: unless there are
/// more files than a scan looks at. Where there are fewer, it did not stop early.
pub proof fn a_scan_meets_every_file(
    root: Node,
    sample_bytes: usize,
    threshold: u64,
    answers: Seq<ScanAnswer>,
)
    requires
        root is Directory,
        all_true(walk_of(root, sample_bytes, threshold), answers),
        walk_run(walk_of(root, sample_bytes, threshold), answers).scan.phase is End,
        files_in(root).len() <= MAX_FILES_SCANNED,
    ensures
        walk_run(walk_of(root, sample_bytes, threshold), answers).met == files_in(root),
        files_in(root).len() < MAX_FILES_SCANNED ==> walk_run(
            walk_of(root, sample_bytes, threshold),
            answers,
        ).scan.phase == (ScanPhase::End { limit_reached: false }),
{
    let w = walk_run(walk_of(root, sample_bytes, threshold), answers);
    a_scan_accounts_for_its_tree(root, sample_bytes, threshold, answers);
    let rest = files_in_all(w.pending).add(files_in_all(w.listing));
    assert(files_in(root) =~= w.met.add(rest));
    assert(rest.len() == 0) by {
        if w.scan.phase == (ScanPhase::End { limit_reached: false }) {
            assert(rest =~= Multiset::empty());
        }
    }
    assert forall|path: Seq<u8>| rest.count(path) == 0 by {
        if rest.count(path) > 0 {
            assert(rest.len() > 0) by {
                vstd::multiset::lemma_multiset_empty_len(rest);
            }
        }
    }
    assert(w.met =~= files_in(root));
}

/// A scan meets no file that is not in the tree, and no more than its limit; where it
/// stopped at that limit, it has met that many.
pub proof fn a_scan_meets_only_files_of_the_tree(
    root: Node,
    sample_bytes: usize,
    threshold: u64,
    answers: Seq<ScanAnswer>,
)
    requires
        root is Directory,
        all_true(walk_of(root, sample_bytes, threshold), answers),
    ensures
        walk_run(walk_of(root, sample_bytes, threshold), answers).met.subset_of(files_in(root)),
        walk_run(walk_of(root, sample_bytes, threshold), answers).met.len() <= MAX_FILES_SCANNED,
        walk_run(walk_of(root, sample_bytes, threshold), answers).scan.phase == (ScanPhase::End {
            limit_reached: true,
        }) ==> walk_run(walk_of(root, sample_bytes, threshold), answers).met.len()
            == MAX_FILES_SCANNED,
{
    let w = walk_run(walk_of(root, sample_bytes, threshold), answers);
    a_scan_accounts_for_its_tree(root, sample_bytes, threshold, answers);
    assert forall|path: Seq<u8>| w.met.count(path) <= files_in(root).count(path) by {
        assert(files_in(root).count(path) == w.met.count(path) + files_in_all(w.pending).count(path)
            + files_in_all(w.listing).count(path));
    }
}

} // verus!
