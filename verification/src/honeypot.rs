//! Decoy files that no legitimate process has a reason to write to.

use vstd::prelude::*;

use crate::path::{
    components, duplicate_all, is_within_any, parent_parts, views, within_any, FilePath,
};
use crate::table::{
    distinct_keys, table, table_keys, table_push, table_remove, table_update, table_values,
};

verus! {

/// What a decoy file holds.
pub const CANARY_CONTENT: &'static str =
    "This file is a RansomShield canary. Do not delete. Any modification triggers an incident response.\n";

/// The permissions of a decoy file. Anyone may write to it: an attacker who cannot
/// open the bait does not spring the trap.
pub const CANARY_MODE: u32 = 0o666;

/// Where a path stands before a decoy is put there; the last component is not
/// followed.
#[derive(Clone, Copy, PartialEq, Eq, Structural, Debug)]
pub enum Occupied {
    /// There is nothing.
    Nothing,
    /// There is a symbolic link.
    Symlink,
    /// There is a file of another kind.
    File,
}

/// What came of an attempt to put a decoy back after an incident.
#[derive(Clone, Copy, PartialEq, Eq, Structural, Debug)]
pub enum Restored {
    /// It could not be written.
    NotWritten,
    /// It was written, but its inode could not be read.
    NotIdentified,
    /// It was written, and this is its inode now.
    At { dev: u64, ino: u64 },
}

struct Canary {
    dev: u64,
    ino: u64,
    path: FilePath,
}

spec fn canary_entries(canaries: Seq<Canary>) -> Seq<((u64, u64), Seq<u8>)> {
    canaries.map_values(|c: Canary| ((c.dev, c.ino), c.path@))
}

/// The decoy files, by device and inode rather than by path: a hard link, a rename
/// and an unlink all leave the inode what it was.
pub struct Honeypots {
    canaries: Vec<Canary>,
}

impl View for Honeypots {
    type V = Map<(u64, u64), Seq<u8>>;

    closed spec fn view(&self) -> Map<(u64, u64), Seq<u8>> {
        table(canary_entries(self.canaries@))
    }
}

/// The decoys that are known once an attempt to put the one at `(dev, ino)` back
/// has ended with `outcome`.
pub open spec fn rearmed(
    known: Map<(u64, u64), Seq<u8>>,
    dev: u64,
    ino: u64,
    outcome: Restored,
) -> Map<(u64, u64), Seq<u8>> {
    match outcome {
        Restored::At { dev: d, ino: i } => if known.contains_key((dev, ino)) {
            known.remove((dev, ino)).insert((d, i), known[(dev, ino)])
        } else {
            known
        },
        _ => known,
    }
}

/// Whether each of the decoys lies in one of `roots`, or below it.
pub open spec fn all_lie_within(known: Map<(u64, u64), Seq<u8>>, roots: Seq<Seq<u8>>) -> bool {
    forall|id: (u64, u64)| #[trigger]
        known.contains_key(id) ==> within_any(known[id], roots)
}

/// Whether there is a decoy at `path`.
pub open spec fn holds_decoy(known: Map<(u64, u64), Seq<u8>>, path: Seq<u8>) -> bool {
    exists|id: (u64, u64)| #[trigger] known.contains_key(id) && known[id] == path
}

/// The directories that hold the decoys.
pub open spec fn decoy_directories(known: Map<(u64, u64), Seq<u8>>) -> Set<Seq<Seq<u8>>> {
    Set::new(
        |dir: Seq<Seq<u8>>|
            exists|id: (u64, u64)| #[trigger]
                known.contains_key(id) && parent_parts(components(known[id])) == Some(dir),
    )
}

impl Honeypots {
    /// Whether no inode stands for two decoys.
    pub closed spec fn wf(self) -> bool {
        distinct_keys(canary_entries(self.canaries@))
    }

    /// No decoys.
    pub fn none() -> (honeypots: Honeypots)
        ensures
            honeypots.wf(),
            honeypots@ == Map::<(u64, u64), Seq<u8>>::empty(),
    {
        Honeypots { canaries: Vec::new() }
    }

    /// Whether there are no decoys.
    pub fn is_empty(&self) -> (b: bool)
        requires
            self.wf(),
        ensures
            b == (self@ == Map::<(u64, u64), Seq<u8>>::empty()),
    {
        proof {
            table_keys(canary_entries(self.canaries@));
            if self.canaries@.len() > 0 {
                assert(self@.contains_key(canary_entries(self.canaries@)[0].0));
            }
        }
        self.canaries.len() == 0
    }

    fn position(&self, dev: u64, ino: u64) -> (at: Option<usize>)
        requires
            self.wf(),
        ensures
            match at {
                Some(i) => i < self.canaries@.len() && self.canaries@[i as int].dev == dev
                    && self.canaries@[i as int].ino == ino && self@.contains_key((dev, ino))
                    && self@[(dev, ino)] == self.canaries@[i as int].path@,
                None => !self@.contains_key((dev, ino)),
            },
    {
        let ghost entries = canary_entries(self.canaries@);
        proof {
            table_keys(entries);
            table_values(entries);
        }
        let mut i: usize = 0;
        while i < self.canaries.len()
            invariant
                i <= self.canaries.len(),
                entries == canary_entries(self.canaries@),
                forall|j: int| 0 <= j < i ==> (#[trigger] entries[j]).0 != (dev, ino),
                forall|j: int|
                    0 <= j < entries.len() ==> table(entries)[(#[trigger] entries[j]).0]
                        == entries[j].1,
                forall|j: int|
                    0 <= j < entries.len() ==> table(entries).contains_key(
                        (#[trigger] entries[j]).0,
                    ),
            decreases self.canaries.len() - i,
        {
            let ghost c = self.canaries@[i as int];
            assert(entries[i as int] == ((c.dev, c.ino), c.path@));
            if self.canaries[i].dev == dev && self.canaries[i].ino == ino {
                assert(table(entries).contains_key(entries[i as int].0));
                return Some(i);
            }
            i = i + 1;
        }
        None
    }

    /// The path at which this inode was put, if it is one of the decoys.
    pub fn lookup(&self, dev: u64, ino: u64) -> (path: Option<&FilePath>)
        requires
            self.wf(),
        ensures
            path is Some <==> self@.contains_key((dev, ino)),
            path matches Some(p) ==> p@ == self@[(dev, ino)],
    {
        match self.position(dev, ino) {
            Some(i) => Some(&self.canaries[i].path),
            None => None,
        }
    }

    /// Whether every decoy lies under one of `roots`. One that does not is never
    /// seen to be written to, and only looks like protection.
    pub fn all_within(&self, roots: &Vec<FilePath>) -> (b: bool)
        requires
            self.wf(),
        ensures
            b == all_lie_within(self@, views(roots@)),
    {
        let ghost entries = canary_entries(self.canaries@);
        proof {
            table_keys(entries);
            table_values(entries);
        }
        let mut i: usize = 0;
        while i < self.canaries.len()
            invariant
                i <= self.canaries.len(),
                entries == canary_entries(self.canaries@),
                self@ == table(entries),
                forall|j: int| 0 <= j < i ==> within_any((#[trigger] entries[j]).1, views(roots@)),
                forall|j: int|
                    0 <= j < entries.len() ==> table(entries)[(#[trigger] entries[j]).0]
                        == entries[j].1,
                forall|j: int|
                    0 <= j < entries.len() ==> table(entries).contains_key(
                        (#[trigger] entries[j]).0,
                    ),
            decreases self.canaries.len() - i,
        {
            assert(entries[i as int].1 == self.canaries@[i as int].path@);
            if !is_within_any(&self.canaries[i].path, roots) {
                assert(self@.contains_key(entries[i as int].0));
                return false;
            }
            i = i + 1;
        }
        assert forall|id: (u64, u64)| #[trigger] self@.contains_key(id) implies within_any(
            self@[id],
            views(roots@),
        ) by {
            let j = choose|j: int| 0 <= j < entries.len() && (#[trigger] entries[j]).0 == id;
            assert(within_any(entries[j].1, views(roots@)));
        }
        true
    }

    /// The paths of the decoys, in any order.
    pub fn places(&self) -> (paths: Vec<FilePath>)
        requires
            self.wf(),
        ensures
            forall|id: (u64, u64)| #[trigger]
                self@.contains_key(id) ==> views(paths@).contains(self@[id]),
            forall|i: int|
                0 <= i < paths@.len() ==> holds_decoy(self@, (#[trigger] paths@[i])@),
    {
        let ghost entries = canary_entries(self.canaries@);
        let mut paths: Vec<FilePath> = Vec::new();
        let mut i: usize = 0;
        while i < self.canaries.len()
            invariant
                i <= self.canaries.len(),
                paths@.len() == i,
                forall|j: int| 0 <= j < i ==> (#[trigger] paths@[j])@ == self.canaries@[j].path@,
            decreases self.canaries.len() - i,
        {
            paths.push(self.canaries[i].path.duplicate());
            i = i + 1;
        }
        proof {
            table_keys(entries);
            table_values(entries);
            assert forall|id: (u64, u64)| #[trigger] self@.contains_key(id) implies views(
                paths@,
            ).contains(self@[id]) by {
                let j = choose|j: int| 0 <= j < entries.len() && (#[trigger] entries[j]).0 == id;
                assert(table(entries)[entries[j].0] == entries[j].1);
                assert(views(paths@)[j] == self@[id]);
            }
            assert forall|j: int| 0 <= j < paths@.len() implies holds_decoy(
                self@,
                (#[trigger] paths@[j])@,
            ) by {
                assert(table(entries)[entries[j].0] == entries[j].1);
                assert(self@.contains_key(entries[j].0));
            }
        }
        paths
    }

    /// Records that the decoy at `path` has this inode.
    fn insert(&mut self, dev: u64, ino: u64, path: FilePath)
        requires
            old(self).wf(),
        ensures
            final(self).wf(),
            final(self)@ == old(self)@.insert((dev, ino), path@),
    {
        let ghost entries = canary_entries(self.canaries@);
        let ghost bytes = path@;
        match self.position(dev, ino) {
            Some(i) => {
                self.canaries[i].path = path;
                proof {
                    assert(canary_entries(self.canaries@) =~= entries.update(
                        i as int,
                        ((dev, ino), bytes),
                    ));
                    table_update(entries, i as int, bytes);
                }
            },
            None => {
                self.canaries.push(Canary { dev, ino, path });
                proof {
                    assert(canary_entries(self.canaries@) =~= entries.push(((dev, ino), bytes)));
                    table_push(entries, (dev, ino), bytes);
                }
            },
        }
    }

    /// Records what came of an attempt to put a decoy back after an incident. The
    /// file that is there now may have another inode.
    pub fn rearm(&mut self, dev: u64, ino: u64, outcome: Restored)
        requires
            old(self).wf(),
        ensures
            final(self).wf(),
            final(self)@ == rearmed(old(self)@, dev, ino, outcome),
    {
        let ghost entries = canary_entries(self.canaries@);
        match (self.position(dev, ino), outcome) {
            (Some(i), Restored::At { dev: d, ino: n }) => {
                let canary = self.canaries.remove(i);
                proof {
                    assert(canary_entries(self.canaries@) =~= entries.remove(i as int));
                    table_remove(entries, i as int);
                }
                self.insert(d, n, canary.path);
            },
            _ => {},
        }
    }
}

/// A decoy that was put back is found under its new inode, at the path where it
/// was; the others stay as they are, unless the system has given one of their
/// inodes to the new file.
pub proof fn a_restored_decoy_is_armed_again(
    known: Map<(u64, u64), Seq<u8>>,
    dev: u64,
    ino: u64,
    d: u64,
    i: u64,
)
    requires
        known.contains_key((dev, ino)),
    ensures
        rearmed(known, dev, ino, Restored::At { dev: d, ino: i }).contains_key((d, i)),
        rearmed(known, dev, ino, Restored::At { dev: d, ino: i })[(d, i)] == known[(dev, ino)],
        forall|id: (u64, u64)|
            id != (dev, ino) && id != (d, i) && #[trigger] known.contains_key(id) ==> rearmed(
                known,
                dev,
                ino,
                Restored::At { dev: d, ino: i },
            ).contains_key(id) && rearmed(known, dev, ino, Restored::At { dev: d, ino: i })[id]
                == known[id],
{
}

/// No attempt to put a decoy back forgets the place of any decoy, unless the system
/// has given the inode of one to the file of another.
pub proof fn rearming_loses_no_decoy(
    known: Map<(u64, u64), Seq<u8>>,
    dev: u64,
    ino: u64,
    outcome: Restored,
    path: Seq<u8>,
)
    requires
        outcome matches Restored::At { dev: d, ino: i } ==> (d, i) == (dev, ino)
            || !known.contains_key((d, i)),
        holds_decoy(known, path),
    ensures
        holds_decoy(rearmed(known, dev, ino, outcome), path),
{
    let id = choose|id: (u64, u64)| #[trigger] known.contains_key(id) && known[id] == path;
    let after = rearmed(known, dev, ino, outcome);
    match outcome {
        Restored::At { dev: d, ino: i } => {
            if known.contains_key((dev, ino)) && id == (dev, ino) {
                assert(after.contains_key((d, i)));
            } else {
                assert(after.contains_key(id));
            }
        },
        _ => {
            assert(after.contains_key(id));
        },
    }
}

/// What has to be done next to put the decoys in place.
pub enum ProvisionAction {
    /// Create the directory that is to hold this decoy, and those above it.
    CreateParent { path: FilePath },
    /// Find out what stands at this path.
    Examine { path: FilePath },
    /// Make what stands at this path writable, if that can be done.
    OpenUp { path: FilePath },
    /// Write a decoy to this path.
    Write { path: FilePath },
    /// Make the decoy at this path writable.
    SetMode { path: FilePath },
    /// Read the inode of what stands at this path, following links.
    Identify { path: FilePath },
    /// All decoys are in place.
    Finished,
    /// Give up.
    Failed(ProvisionError),
}

/// What an action has come to.
#[derive(Clone, Copy, PartialEq, Eq, Structural, Debug)]
pub enum ProvisionAnswer {
    /// It worked.
    Done,
    /// It did not.
    Refused,
    /// What stands at the path.
    Found(Occupied),
    /// The inode.
    Inode { dev: u64, ino: u64 },
}

/// Why the decoys could not be put in place.
#[derive(Clone, Copy, PartialEq, Eq, Structural, Debug)]
pub enum ProvisionError {
    CreateParent,
    Write,
    SetMode,
    Identify,
    /// An answer came that does not fit what was asked.
    Protocol,
}

/// How far the decoy at hand has come.
#[derive(Clone, Copy, PartialEq, Eq, Structural, Debug)]
pub enum ProvisionPhase {
    CreateParent,
    Examine,
    OpenUp,
    Write,
    SetMode,
    Identify,
    Failed(ProvisionError),
}

/// The work of putting decoys in place, so far.
#[verifier::ext_equal]
pub struct ProvisionModel {
    pub paths: Seq<Seq<u8>>,
    /// The decoy at hand.
    pub at: nat,
    pub phase: ProvisionPhase,
    pub known: Map<(u64, u64), Seq<u8>>,
}

impl ProvisionModel {
    /// On to the next decoy.
    pub open spec fn next_path(self) -> ProvisionModel {
        ProvisionModel { at: self.at + 1, phase: ProvisionPhase::CreateParent, ..self }
    }

    pub open spec fn to(self, phase: ProvisionPhase) -> ProvisionModel {
        ProvisionModel { phase, ..self }
    }

    /// The work once the action at hand has come to `answer`. A symbolic link is
    /// passed over, what is there already keeps its content, and where there is
    /// nothing a decoy is written.
    pub open spec fn step(self, answer: ProvisionAnswer) -> ProvisionModel {
        if self.at >= self.paths.len() {
            self
        } else {
            match (self.phase, answer) {
                (ProvisionPhase::CreateParent, ProvisionAnswer::Done) => self.to(
                    ProvisionPhase::Examine,
                ),
                (ProvisionPhase::CreateParent, ProvisionAnswer::Refused) => self.to(
                    ProvisionPhase::Failed(ProvisionError::CreateParent),
                ),
                (ProvisionPhase::Examine, ProvisionAnswer::Found(found)) => match found {
                    Occupied::Symlink => self.next_path(),
                    Occupied::File => self.to(ProvisionPhase::OpenUp),
                    Occupied::Nothing => self.to(ProvisionPhase::Write),
                },
                (ProvisionPhase::OpenUp, ProvisionAnswer::Done) => self.to(ProvisionPhase::Identify),
                (ProvisionPhase::OpenUp, ProvisionAnswer::Refused) => self.to(ProvisionPhase::Identify),
                (ProvisionPhase::Write, ProvisionAnswer::Done) => self.to(ProvisionPhase::SetMode),
                (ProvisionPhase::Write, ProvisionAnswer::Refused) => self.to(
                    ProvisionPhase::Failed(ProvisionError::Write),
                ),
                (ProvisionPhase::SetMode, ProvisionAnswer::Done) => self.to(ProvisionPhase::Identify),
                (ProvisionPhase::SetMode, ProvisionAnswer::Refused) => self.to(
                    ProvisionPhase::Failed(ProvisionError::SetMode),
                ),
                (ProvisionPhase::Identify, ProvisionAnswer::Inode { dev, ino }) => ProvisionModel {
                    known: self.known.insert((dev, ino), self.paths[self.at as int]),
                    ..self.next_path()
                },
                (ProvisionPhase::Identify, ProvisionAnswer::Refused) => self.to(
                    ProvisionPhase::Failed(ProvisionError::Identify),
                ),
                (ProvisionPhase::Failed(_), _) => self,
                _ => self.to(ProvisionPhase::Failed(ProvisionError::Protocol)),
            }
        }
    }
}

/// Whether `action` is what has to be done next.
pub open spec fn is_next_action(m: ProvisionModel, action: ProvisionAction) -> bool {
    let path = m.paths[m.at as int];
    match m.phase {
        ProvisionPhase::Failed(error) => action == ProvisionAction::Failed(error),
        _ => if m.at >= m.paths.len() {
            action is Finished
        } else {
            match m.phase {
                ProvisionPhase::CreateParent => action matches ProvisionAction::CreateParent {
                    path: p,
                } && p@ == path,
                ProvisionPhase::Examine => action matches ProvisionAction::Examine { path: p }
                    && p@ == path,
                ProvisionPhase::OpenUp => action matches ProvisionAction::OpenUp { path: p } && p@
                    == path,
                ProvisionPhase::Write => action matches ProvisionAction::Write { path: p } && p@
                    == path,
                ProvisionPhase::SetMode => action matches ProvisionAction::SetMode { path: p } && p@
                    == path,
                _ => action matches ProvisionAction::Identify { path: p } && p@ == path,
            }
        },
    }
}

/// The work of putting decoys in place.
pub struct Provisioning {
    paths: Vec<FilePath>,
    at: usize,
    phase: ProvisionPhase,
    known: Honeypots,
}

impl View for Provisioning {
    type V = ProvisionModel;

    closed spec fn view(&self) -> ProvisionModel {
        ProvisionModel {
            paths: views(self.paths@),
            at: self.at as nat,
            phase: self.phase,
            known: self.known@,
        }
    }
}

impl Honeypots {
    /// Begins to put decoys at `paths`: creates those that are missing and records
    /// the inode of each.
    pub fn provision(paths: &Vec<FilePath>) -> (work: Provisioning)
        ensures
            work.wf(),
            work@ == (ProvisionModel {
                paths: views(paths@),
                at: 0,
                phase: ProvisionPhase::CreateParent,
                known: Map::empty(),
            }),
    {
        Provisioning {
            paths: duplicate_all(paths),
            at: 0,
            phase: ProvisionPhase::CreateParent,
            known: Honeypots::none(),
        }
    }
}

impl Provisioning {
    pub closed spec fn wf(self) -> bool {
        self.known.wf() && self.at <= self.paths@.len()
    }

    /// What has to be done next.
    pub fn action(&self) -> (action: ProvisionAction)
        requires
            self.wf(),
        ensures
            is_next_action(self@, action),
    {
        if let ProvisionPhase::Failed(error) = self.phase {
            return ProvisionAction::Failed(error);
        }
        if self.at >= self.paths.len() {
            return ProvisionAction::Finished;
        }
        let path = self.paths[self.at].duplicate();
        assert(path@ == self@.paths[self@.at as int]);
        match self.phase {
            ProvisionPhase::CreateParent => ProvisionAction::CreateParent { path },
            ProvisionPhase::Examine => ProvisionAction::Examine { path },
            ProvisionPhase::OpenUp => ProvisionAction::OpenUp { path },
            ProvisionPhase::Write => ProvisionAction::Write { path },
            ProvisionPhase::SetMode => ProvisionAction::SetMode { path },
            _ => ProvisionAction::Identify { path },
        }
    }

    fn next_path(&mut self)
        requires
            old(self).wf(),
            old(self)@.at < old(self)@.paths.len(),
        ensures
            final(self).wf(),
            final(self)@ == old(self)@.next_path(),
    {
        assert(self.at < self.paths.len());
        self.at = self.at + 1;
        self.phase = ProvisionPhase::CreateParent;
    }

    /// Records what the action at hand has come to.
    pub fn advance(&mut self, answer: ProvisionAnswer)
        requires
            old(self).wf(),
        ensures
            final(self).wf(),
            final(self)@ == old(self)@.step(answer),
    {
        if self.at >= self.paths.len() {
            return;
        }
        match (self.phase, answer) {
            (ProvisionPhase::CreateParent, ProvisionAnswer::Done) => {
                self.phase = ProvisionPhase::Examine;
            },
            (ProvisionPhase::CreateParent, ProvisionAnswer::Refused) => {
                self.phase = ProvisionPhase::Failed(ProvisionError::CreateParent);
            },
            (ProvisionPhase::Examine, ProvisionAnswer::Found(found)) => match found {
                Occupied::Symlink => {
                    self.next_path();
                },
                Occupied::File => {
                    self.phase = ProvisionPhase::OpenUp;
                },
                Occupied::Nothing => {
                    self.phase = ProvisionPhase::Write;
                },
            },
            (ProvisionPhase::OpenUp, ProvisionAnswer::Done) => {
                self.phase = ProvisionPhase::Identify;
            },
            (ProvisionPhase::OpenUp, ProvisionAnswer::Refused) => {
                self.phase = ProvisionPhase::Identify;
            },
            (ProvisionPhase::Write, ProvisionAnswer::Done) => {
                self.phase = ProvisionPhase::SetMode;
            },
            (ProvisionPhase::Write, ProvisionAnswer::Refused) => {
                self.phase = ProvisionPhase::Failed(ProvisionError::Write);
            },
            (ProvisionPhase::SetMode, ProvisionAnswer::Done) => {
                self.phase = ProvisionPhase::Identify;
            },
            (ProvisionPhase::SetMode, ProvisionAnswer::Refused) => {
                self.phase = ProvisionPhase::Failed(ProvisionError::SetMode);
            },
            (ProvisionPhase::Identify, ProvisionAnswer::Inode { dev, ino }) => {
                let path = self.paths[self.at].duplicate();
                self.known.insert(dev, ino, path);
                self.next_path();
            },
            (ProvisionPhase::Identify, ProvisionAnswer::Refused) => {
                self.phase = ProvisionPhase::Failed(ProvisionError::Identify);
            },
            (ProvisionPhase::Failed(_), _) => {},
            _ => {
                self.phase = ProvisionPhase::Failed(ProvisionError::Protocol);
            },
        }
        assert(self@ =~= old(self)@.step(answer));
    }

    /// The decoys that are in place.
    pub fn into_honeypots(self) -> (honeypots: Honeypots)
        requires
            self.wf(),
        ensures
            honeypots.wf(),
            honeypots@ == self@.known,
    {
        self.known
    }
}

/// A decoy is only ever written where there was nothing, so never through a link
/// and never over a file.
pub proof fn a_decoy_is_only_written_where_there_was_nothing(
    m: ProvisionModel,
    answer: ProvisionAnswer,
)
    requires
        m.phase != ProvisionPhase::Write,
        m.step(answer).phase == ProvisionPhase::Write,
    ensures
        m.phase == ProvisionPhase::Examine,
        answer == ProvisionAnswer::Found(Occupied::Nothing),
        m.step(answer).at == m.at,
{
}

/// A path at which a symbolic link stands is passed over: nothing is done there, and
/// no decoy is recorded for it.
pub proof fn a_link_is_passed_over(m: ProvisionModel)
    requires
        m.at < m.paths.len(),
        m.phase == ProvisionPhase::Examine,
    ensures
        m.step(ProvisionAnswer::Found(Occupied::Symlink)) == (ProvisionModel {
            at: m.at + 1,
            phase: ProvisionPhase::CreateParent,
            ..m
        }),
{
}

/// What is known changes only when an inode was read, and then by the decoy at
/// hand: the trap that is recorded is the file that stands at its path.
pub proof fn only_identified_decoys_are_recorded(m: ProvisionModel, answer: ProvisionAnswer)
    ensures
        m.step(answer).known != m.known ==> m.at < m.paths.len() && m.phase
            == ProvisionPhase::Identify && exists|dev: u64, ino: u64|
            answer == (ProvisionAnswer::Inode { dev, ino }) && m.step(answer).known
                == #[trigger] m.known.insert((dev, ino), m.paths[m.at as int]),
{
    if m.step(answer).known != m.known {
        match answer {
            ProvisionAnswer::Inode { dev, ino } => {
                assert(m.step(answer).known == m.known.insert((dev, ino), m.paths[m.at as int]));
            },
            _ => {},
        }
    }
}

/// The work of putting decoys at `paths`, after a series of answers.
pub open spec fn provision_run(
    paths: Seq<Seq<u8>>,
    answers: Seq<ProvisionAnswer>,
) -> ProvisionModel
    decreases answers.len(),
{
    if answers.len() == 0 {
        ProvisionModel {
            paths,
            at: 0,
            phase: ProvisionPhase::CreateParent,
            known: Map::empty(),
        }
    } else {
        provision_run(paths, answers.drop_last()).step(answers.last())
    }
}

/// Whether the answer at `i` passed the path at `j` over because of a link, or gave an
/// inode for it that is among `known`: under that path, unless a later answer gave the
/// same inode.
pub open spec fn deals_with(
    paths: Seq<Seq<u8>>,
    answers: Seq<ProvisionAnswer>,
    known: Map<(u64, u64), Seq<u8>>,
    i: int,
    j: int,
) -> bool {
    let m = provision_run(paths, answers.take(i));
    &&& 0 <= i < answers.len()
    &&& m.at == j
    &&& match answers[i] {
        ProvisionAnswer::Found(found) => found is Symlink && m.phase is Examine,
        ProvisionAnswer::Inode { dev, ino } => {
            &&& m.phase is Identify
            &&& known.contains_key((dev, ino))
            &&& !answers.skip(i + 1).contains(answers[i]) ==> known[(dev, ino)] == paths[j]
        },
        _ => false,
    }
}

/// Once the work is done, each of the paths was passed over because a link stands
/// there, or the inode of its decoy was read and is recorded for that path: no decoy is
/// silently left out. Where two paths lead to one inode, it is recorded for the later.
pub proof fn every_decoy_is_armed_or_a_link(
    paths: Seq<Seq<u8>>,
    answers: Seq<ProvisionAnswer>,
    j: int,
)
    requires
        0 <= j < provision_run(paths, answers).at,
    ensures
        exists|i: int| #[trigger]
            deals_with(paths, answers, provision_run(paths, answers).known, i, j),
        provision_run(paths, answers).paths == paths,
        provision_run(paths, answers).at <= paths.len(),
    decreases answers.len(),
{
    provision_stays_in_bounds(paths, answers);
    if answers.len() > 0 {
        let before = answers.drop_last();
        let m = provision_run(paths, before);
        let known = provision_run(paths, answers).known;
        let last = answers.len() - 1;
        assert(answers.take(last) =~= before);
        provision_stays_in_bounds(paths, before);
        if j < m.at {
            every_decoy_is_armed_or_a_link(paths, before, j);
            let i = choose|i: int| #[trigger] deals_with(paths, before, m.known, i, j);
            assert(answers.take(i) =~= before.take(i));
            assert(answers[i] == before[i]);
            let later = answers.skip(i + 1);
            if !later.contains(answers[i]) {
                assert(later[later.len() - 1] == answers.last());
                let earlier = before.skip(i + 1);
                assert forall|k: int| 0 <= k < earlier.len() implies #[trigger] earlier[k]
                    != before[i] by {
                    assert(later[k] == earlier[k]);
                }
            }
            assert(deals_with(paths, answers, known, i, j));
        } else {
            assert(deals_with(paths, answers, known, last, j));
        }
    }
}

proof fn provision_stays_in_bounds(paths: Seq<Seq<u8>>, answers: Seq<ProvisionAnswer>)
    ensures
        provision_run(paths, answers).paths == paths,
        provision_run(paths, answers).at <= paths.len(),
    decreases answers.len(),
{
    if answers.len() > 0 {
        provision_stays_in_bounds(paths, answers.drop_last());
    }
}

/// After an attempt to put a decoy back that gave an inode, the decoy is known by that
/// inode and no longer by its old one, unless that is the same, and every other decoy is
/// known as before, unless it had that inode. An attempt that gave none, and one on what
/// is no decoy, changes nothing.
pub proof fn putting_a_decoy_back_moves_that_decoy_alone(
    known: Map<(u64, u64), Seq<u8>>,
    dev: u64,
    ino: u64,
    outcome: Restored,
    id: (u64, u64),
)
    ensures
        ({
            let now = rearmed(known, dev, ino, outcome);
            &&& outcome is NotWritten || outcome is NotIdentified ==> now == known
            &&& !known.contains_key((dev, ino)) ==> now == known
            &&& known.contains_key((dev, ino)) && outcome is At ==> {
                let new = (outcome->dev, outcome->ino);
                &&& id == new ==> now.contains_key(id) && now[id] == known[(dev, ino)]
                &&& id == (dev, ino) && id != new ==> !now.contains_key(id)
                &&& id != (dev, ino) && id != new ==> (now.contains_key(id)
                    <==> known.contains_key(id)) && (known.contains_key(id) ==> now[id]
                    == known[id])
            }
        }),
{
}

/// All of no decoys lie within any roots and are in no directories; with a further decoy
/// they do, and are, where the further one does too, and in its directory besides.
pub proof fn decoys_are_looked_at_one_by_one(
    known: Map<(u64, u64), Seq<u8>>,
    id: (u64, u64),
    path: Seq<u8>,
    roots: Seq<Seq<u8>>,
    dir: Seq<Seq<u8>>,
)
    requires
        !known.contains_key(id),
    ensures
        all_lie_within(Map::empty(), roots),
        all_lie_within(known.insert(id, path), roots) <==> all_lie_within(known, roots)
            && within_any(path, roots),
        !decoy_directories(Map::empty()).contains(dir),
        decoy_directories(known.insert(id, path)).contains(dir) <==> decoy_directories(
            known,
        ).contains(dir) || components(path).len() > 0 && components(path).last() != seq![47u8]
            && dir == components(path).drop_last(),
{
    let more = known.insert(id, path);
    assert(more.contains_key(id) && more[id] == path);
    if all_lie_within(more, roots) {
        assert forall|other: (u64, u64)| #[trigger] known.contains_key(other) implies within_any(
            known[other],
            roots,
        ) by {
            assert(more.contains_key(other));
        }
    }
    if decoy_directories(known).contains(dir) {
        let other = choose|other: (u64, u64)| #[trigger]
            known.contains_key(other) && parent_parts(components(known[other])) == Some(dir);
        assert(more.contains_key(other));
    }
    if decoy_directories(more).contains(dir) {
        let other = choose|other: (u64, u64)| #[trigger]
            more.contains_key(other) && parent_parts(components(more[other])) == Some(dir);
        if other != id {
            assert(known.contains_key(other));
        }
    }
}

/// Where there is nothing, the decoy is written, made writable and identified, and is
/// then known by its inode; the work goes on with the next path.
pub proof fn a_missing_decoy_is_created(m: ProvisionModel, dev: u64, ino: u64)
    requires
        m.at < m.paths.len(),
        m.phase is CreateParent,
    ensures
        ({
            let examined = m.step(ProvisionAnswer::Done);
            let writing = examined.step(ProvisionAnswer::Found(Occupied::Nothing));
            let written = writing.step(ProvisionAnswer::Done);
            let opened = written.step(ProvisionAnswer::Done);
            let done = opened.step(ProvisionAnswer::Inode { dev, ino });
            &&& examined.phase is Examine && writing.phase is Write && written.phase is SetMode
            &&& opened.phase is Identify
            &&& examined.at == m.at && writing.at == m.at && written.at == m.at && opened.at == m.at
            &&& done.at == m.at + 1 && done.phase is CreateParent && done.paths == m.paths
            &&& done.known == m.known.insert((dev, ino), m.paths[m.at as int])
        }),
{
}

/// A file that is there already is made writable, if that can be done, and known by its
/// inode, without being written to.
pub proof fn an_existing_decoy_is_adopted(
    m: ProvisionModel,
    opened: ProvisionAnswer,
    dev: u64,
    ino: u64,
)
    requires
        m.at < m.paths.len(),
        m.phase is CreateParent,
        opened is Done || opened is Refused,
    ensures
        ({
            let examined = m.step(ProvisionAnswer::Done);
            let found = examined.step(ProvisionAnswer::Found(Occupied::File));
            let ready = found.step(opened);
            let done = ready.step(ProvisionAnswer::Inode { dev, ino });
            &&& examined.phase is Examine && found.phase is OpenUp && ready.phase is Identify
            &&& found.at == m.at && ready.at == m.at
            &&& done.at == m.at + 1 && done.phase is CreateParent && done.paths == m.paths
            &&& done.known == m.known.insert((dev, ino), m.paths[m.at as int])
        }),
{
}

/// What cannot be done for a decoy ends the work, with a reason that says what it was;
/// so does an answer that does not fit. What is known stays, and nothing follows.
pub proof fn a_decoy_that_cannot_be_armed_ends_the_work(
    m: ProvisionModel,
    answer: ProvisionAnswer,
    next: ProvisionAnswer,
)
    requires
        m.at < m.paths.len(),
    ensures
        ({
            let now = m.step(answer);
            &&& m.phase is CreateParent && answer is Refused ==> now.phase
                == ProvisionPhase::Failed(ProvisionError::CreateParent)
            &&& m.phase is Write && answer is Refused ==> now.phase == ProvisionPhase::Failed(
                ProvisionError::Write,
            )
            &&& m.phase is SetMode && answer is Refused ==> now.phase == ProvisionPhase::Failed(
                ProvisionError::SetMode,
            )
            &&& m.phase is Identify && answer is Refused ==> now.phase == ProvisionPhase::Failed(
                ProvisionError::Identify,
            )
            &&& m.phase is Examine && !(answer is Found) ==> now.phase == ProvisionPhase::Failed(
                ProvisionError::Protocol,
            )
            &&& m.phase is Identify && (answer is Done || answer is Found) ==> now.phase
                == ProvisionPhase::Failed(ProvisionError::Protocol)
            &&& (m.phase is CreateParent || m.phase is OpenUp || m.phase is Write
                || m.phase is SetMode) && (answer is Found || answer is Inode) ==> now.phase
                == ProvisionPhase::Failed(ProvisionError::Protocol)
            &&& now.phase is Failed ==> now.known == m.known && now.at == m.at
            &&& now.phase is Failed ==> now.step(next) == now
        }),
{
}

/// Once every path was dealt with, nothing changes any more.
pub proof fn the_work_ends_with_the_last_path(m: ProvisionModel, answer: ProvisionAnswer)
    requires
        m.at >= m.paths.len(),
    ensures
        m.step(answer) == m,
{
}

/// What is done is done to the path at hand, and each action comes in its own phase; the
/// work is over once every path was dealt with, and given up for the reason at hand.
pub proof fn provision_actions_name_the_path_at_hand(m: ProvisionModel, action: ProvisionAction)
    requires
        is_next_action(m, action),
    ensures
        ({
            let path = m.paths[m.at as int];
            let working = !(m.phase is Failed) && m.at < m.paths.len();
            &&& m.phase is Failed ==> action == ProvisionAction::Failed(m.phase->Failed_0)
            &&& !(m.phase is Failed) && m.at >= m.paths.len() ==> action is Finished
            &&& working && m.phase is CreateParent ==> action is CreateParent
                && action->CreateParent_path@ == path
            &&& working && m.phase is Examine ==> action is Examine && action->Examine_path@ == path
            &&& working && m.phase is OpenUp ==> action is OpenUp && action->OpenUp_path@ == path
            &&& working && m.phase is Write ==> action is Write && action->Write_path@ == path
            &&& working && m.phase is SetMode ==> action is SetMode && action->SetMode_path@ == path
            &&& working && m.phase is Identify ==> action is Identify && action->Identify_path@
                == path
        }),
{
}

/// A file is a decoy exactly where its inode is that of one, and it is then the decoy that
/// was put at that path; and there are no decoys exactly where no inode is that of one.
pub proof fn decoys_are_known_by_their_inodes(
    honeypots: &Honeypots,
    dev: u64,
    ino: u64,
    path: Option<&FilePath>,
    empty: bool,
)
    requires
        call_ensures(Honeypots::lookup, (honeypots, dev, ino), path),
        call_ensures(Honeypots::is_empty, (honeypots,), empty),
    ensures
        path is Some <==> honeypots@.contains_key((dev, ino)),
        path is Some ==> path->0@ == honeypots@[(dev, ino)],
        path is Some ==> !empty,
        (forall|id: (u64, u64)| !#[trigger] honeypots@.contains_key(id)) ==> empty,
{
    if forall|id: (u64, u64)| !#[trigger] honeypots@.contains_key(id) {
        assert(honeypots@ =~= Map::<(u64, u64), Seq<u8>>::empty());
    }
}

/// Putting decoys in place begins with the first path and no decoy known; each answer
/// takes the work one step on; and the decoys that are known then are handed over.
pub proof fn decoys_are_put_in_place_from_the_first_path_on(
    paths: &Vec<FilePath>,
    begun: Provisioning,
    work: &mut Provisioning,
    dev: u64,
    ino: u64,
    done: Provisioning,
    decoys: Honeypots,
)
    requires
        call_ensures(Honeypots::provision, (paths,), begun),
        old(work)@.at < old(work)@.paths.len(),
        old(work)@.phase is Identify,
        call_ensures(Provisioning::advance, (work, ProvisionAnswer::Inode { dev, ino }), ()),
        call_ensures(Provisioning::into_honeypots, (done,), decoys),
    ensures
        begun@.paths == views(paths@),
        begun@.at == 0,
        begun@.phase is CreateParent,
        begun@.known =~= Map::<(u64, u64), Seq<u8>>::empty(),
        final(work)@.known == old(work)@.known.insert(
            (dev, ino),
            old(work)@.paths[old(work)@.at as int],
        ),
        final(work)@.at == old(work)@.at + 1,
        final(work)@.paths == old(work)@.paths,
        decoys@ == done@.known,
{
}

/// A decoy that was put back is found by the inode that it has now, at the path where it
/// was, and no longer by its old inode where that is another.
pub proof fn a_decoy_is_found_by_its_new_inode(
    honeypots: &mut Honeypots,
    dev: u64,
    ino: u64,
    outcome: Restored,
    id: (u64, u64),
)
    requires
        call_ensures(Honeypots::rearm, (honeypots, dev, ino, outcome), ()),
    ensures
        ({
            let before = old(honeypots)@;
            let after = final(honeypots)@;
            let moved = outcome is At && before.contains_key((dev, ino));
            let new = (outcome->dev, outcome->ino);
            &&& !moved ==> after == before
            &&& moved ==> after.contains_key(new) && after[new] == before[(dev, ino)]
            &&& moved && new != (dev, ino) ==> !after.contains_key((dev, ino))
            &&& id != new && id != (dev, ino) ==> (after.contains_key(id)
                <==> before.contains_key(id)) && (before.contains_key(id) ==> after[id]
                == before[id])
        }),
{
    putting_a_decoy_back_moves_that_decoy_alone(old(honeypots)@, dev, ino, outcome, id);
}

/// The decoys all lie within some roots exactly where each of them has a root whose
/// components its own begin with.
pub proof fn decoys_lie_within_where_each_does(
    honeypots: &Honeypots,
    roots: &Vec<FilePath>,
    within: bool,
)
    requires
        call_ensures(Honeypots::all_within, (honeypots, roots), within),
    ensures
        within <==> forall|id: (u64, u64)| #[trigger]
            honeypots@.contains_key(id) ==> within_any(honeypots@[id], views(roots@)),
{
}

} // verus!
