//! The commits that the node stands on: the current one and the finalized
//! one, and what may be done with them.

use crate::session::{same_hash, Error};
use vstd::prelude::*;

verus! {

/// The height at which the stake contract is migrated where the
/// configuration names none.
pub const MIGRATION_BLOCK: u64 = 3;

/// The chain state of a node: the commit that the next block builds on and
/// the commit of the last finalized block, from which the node recovers.
#[derive(Debug)]
pub struct Rusk {
    current_commit: [u8; 32],
    base_commit: [u8; 32],
    migration_height: Option<u64>,
}

/// The chain state as contracts see it.
pub struct RuskView {
    pub current_commit: Seq<u8>,
    pub base_commit: Seq<u8>,
    pub migration_height: Option<u64>,
}

impl View for Rusk {
    type V = RuskView;

    closed spec fn view(&self) -> RuskView {
        RuskView {
            current_commit: self.current_commit@,
            base_commit: self.base_commit@,
            migration_height: self.migration_height,
        }
    }
}

/// `commits` hold `hash`.
pub open spec fn has_commit(commits: Seq<[u8; 32]>, hash: Seq<u8>) -> bool {
    exists|i: int| 0 <= i < commits.len() && (#[trigger] commits[i])@ == hash
}

/// The commits that a finalization deletes: every commit of the store but
/// the new base, the base before it and the commit that was current.
pub open spec fn stale_commits(commits: Seq<[u8; 32]>, keep: Seq<Seq<u8>>) -> Seq<[u8; 32]>
    decreases commits.len(),
{
    if commits.len() == 0 {
        Seq::empty()
    } else if keep.contains(commits.last()@) {
        stale_commits(commits.drop_last(), keep)
    } else {
        stale_commits(commits.drop_last(), keep).push(commits.last())
    }
}

/// A finalization deletes no commit that it is to keep, and every other.
pub proof fn lemma_stale_commits(commits: Seq<[u8; 32]>, keep: Seq<Seq<u8>>, hash: Seq<u8>)
    ensures
        has_commit(stale_commits(commits, keep), hash) <==> has_commit(commits, hash)
            && !keep.contains(hash),
    decreases commits.len(),
{
    let stale = stale_commits(commits, keep);
    if commits.len() > 0 {
        let front = commits.drop_last();
        let last = commits.last();
        lemma_stale_commits(front, keep, hash);
        if has_commit(commits, hash) {
            let i = choose|i: int| 0 <= i < commits.len() && (#[trigger] commits[i])@ == hash;
            if i < front.len() {
                assert(front[i]@ == hash);
            }
        }
        if has_commit(front, hash) {
            let i = choose|i: int| 0 <= i < front.len() && (#[trigger] front[i])@ == hash;
            assert(commits[i]@ == hash);
        }
        if !keep.contains(last@) {
            let rest = stale_commits(front, keep);
            if has_commit(stale, hash) {
                let i = choose|i: int| 0 <= i < stale.len() && (#[trigger] stale[i])@ == hash;
                if i < rest.len() {
                    assert(rest[i]@ == hash);
                } else {
                    assert(commits[commits.len() - 1]@ == hash);
                }
            }
            if has_commit(rest, hash) {
                let i = choose|i: int| 0 <= i < rest.len() && (#[trigger] rest[i])@ == hash;
                assert(stale[i]@ == hash);
            }
            if last@ == hash {
                assert(stale[stale.len() - 1]@ == hash);
            }
        }
    }
}

/// Whether `commits` hold `hash`.
pub fn contains_commit(commits: &Vec<[u8; 32]>, hash: &[u8; 32]) -> (found: bool)
    ensures
        found == has_commit(commits@, hash@),
{
    let mut i: usize = 0;
    while i < commits.len()
        invariant
            i <= commits.len(),
            forall|k: int| 0 <= k < i ==> (#[trigger] commits@[k])@ != hash@,
        decreases commits.len() - i,
    {
        if same_hash(&commits[i], hash) {
            return true;
        }
        i += 1;
    }
    false
}

impl Rusk {
    /// The chain state of a node that starts from the stored identifier of
    /// its finalized commit. The identifier has to be 32 bytes.
    pub fn new(base_commit_bytes: &[u8], migration_height: Option<u64>) -> (rusk: Result<
        Self,
        Error,
    >)
        ensures
            match rusk {
                Ok(rusk) => {
                    &&& base_commit_bytes@.len() == 32
                    &&& rusk@.base_commit == base_commit_bytes@
                    &&& rusk@.current_commit == base_commit_bytes@
                    &&& rusk@.migration_height == migration_height
                },
                Err(error) => base_commit_bytes@.len() != 32 && error == Error::CommitIdLength(
                    base_commit_bytes.len(),
                ),
            },
    {
        if base_commit_bytes.len() != 32 {
            return Err(Error::CommitIdLength(base_commit_bytes.len()));
        }
        let mut base_commit = [0u8; 32];
        let mut i: usize = 0;
        while i < 32
            invariant
                i <= 32,
                base_commit_bytes@.len() == 32,
                forall|k: int| 0 <= k < i ==> base_commit@[k] == base_commit_bytes@[k],
            decreases 32 - i,
        {
            base_commit[i] = base_commit_bytes[i];
            i += 1;
        }
        Ok(Rusk { current_commit: base_commit, base_commit, migration_height })
    }

    /// Makes `state_hash` the current commit, where the store has it.
    pub fn revert(&mut self, commits: &Vec<[u8; 32]>, state_hash: [u8; 32]) -> (outcome: Result<
        [u8; 32],
        Error,
    >)
        ensures
            has_commit(commits@, state_hash@) ==> outcome == Ok::<[u8; 32], Error>(state_hash)
                && final(self)@ == (RuskView { current_commit: state_hash@, ..old(self)@ }),
            !has_commit(commits@, state_hash@) ==> outcome == Err::<[u8; 32], Error>(
                Error::CommitNotFound(state_hash),
            ) && final(self)@ == old(self)@,
    {
        if !contains_commit(commits, &state_hash) {
            return Err(Error::CommitNotFound(state_hash));
        }
        self.current_commit = state_hash;
        Ok(self.current_commit)
    }

    /// Makes the finalized commit the current one, where the store has it.
    pub fn revert_to_base_root(&mut self, commits: &Vec<[u8; 32]>) -> (outcome: Result<
        [u8; 32],
        Error,
    >)
        ensures
            match outcome {
                Ok(root) => {
                    &&& has_commit(commits@, old(self)@.base_commit)
                    &&& root@ == old(self)@.base_commit
                    &&& final(self)@ == (RuskView {
                        current_commit: old(self)@.base_commit,
                        ..old(self)@
                    })
                },
                Err(error) => {
                    &&& !has_commit(commits@, old(self)@.base_commit)
                    &&& error matches Error::CommitNotFound(missing)
                    &&& missing@ == old(self)@.base_commit
                    &&& final(self)@ == old(self)@
                },
            },
    {
        let base = self.base_root();
        self.revert(commits, base)
    }

    /// Get the base root.
    pub fn base_root(&self) -> (root: [u8; 32])
        ensures
            root@ == self@.base_commit,
    {
        self.base_commit
    }

    /// Get the current state root.
    pub fn state_root(&self) -> (root: [u8; 32])
        ensures
            root@ == self@.current_commit,
    {
        self.current_commit
    }

    /// The height at which the stake contract is to be migrated.
    pub fn migration_height(&self) -> (height: Option<u64>)
        ensures
            height == self@.migration_height,
    {
        self.migration_height
    }

    /// Whether the block at `block_height` migrates the stake contract:
    /// the configured height, or `MIGRATION_BLOCK` where none is
    /// configured. At any other height a migration does nothing.
    pub fn migrates_at(&self, block_height: u64) -> (due: bool)
        ensures
            due == (block_height == match self@.migration_height {
                Some(height) => height,
                None => MIGRATION_BLOCK,
            }),
    {
        match self.migration_height {
            Some(height) => block_height == height,
            None => block_height == MIGRATION_BLOCK,
        }
    }

    /// Takes the commit of an accepted block as the current one.
    pub fn accepted(&mut self, commit_id: [u8; 32])
        ensures
            final(self)@ == (RuskView { current_commit: commit_id@, ..old(self)@ }),
    {
        self.current_commit = commit_id;
    }

    /// Takes the commit of a finalized block as the current and the base
    /// commit, and tells which commits of the store are to be deleted:
    /// all but the new commit, the base before it and the commit that was
    /// current.
    pub fn finalized(&mut self, commit_id: [u8; 32], commits: &Vec<[u8; 32]>) -> (stale: Vec<
        [u8; 32],
    >)
        ensures
            final(self)@ == (RuskView {
                current_commit: commit_id@,
                base_commit: commit_id@,
                ..old(self)@
            }),
            stale@ == stale_commits(
                commits@,
                seq![commit_id@, old(self)@.base_commit, old(self)@.current_commit],
            ),
            !has_commit(stale@, final(self)@.base_commit),
            !has_commit(stale@, final(self)@.current_commit),
            !has_commit(stale@, old(self)@.base_commit),
            !has_commit(stale@, old(self)@.current_commit),
    {
        let previous = self.current_commit;
        let ghost keep = seq![commit_id@, self.base_commit@, self.current_commit@];
        let mut stale: Vec<[u8; 32]> = Vec::new();
        let mut i: usize = 0;
        while i < commits.len()
            invariant
                i <= commits.len(),
                *self == *old(self),
                previous == self.current_commit,
                keep == seq![commit_id@, self.base_commit@, self.current_commit@],
                stale@ == stale_commits(commits@.take(i as int), keep),
            decreases commits.len() - i,
        {
            let commit = commits[i];
            proof {
                assert(commits@.take(i + 1).drop_last() =~= commits@.take(i as int));
                assert(keep[0] == commit_id@ && keep[1] == self.base_commit@ && keep[2]
                    == self.current_commit@);
            }
            let kept = same_hash(&commit, &commit_id) || same_hash(&commit, &self.base_commit)
                || same_hash(&commit, &previous);
            if !kept {
                stale.push(commit);
            }
            i += 1;
        }
        assert(commits@.take(i as int) =~= commits@);
        proof {
            lemma_stale_commits(commits@, keep, commit_id@);
            lemma_stale_commits(commits@, keep, self.base_commit@);
            lemma_stale_commits(commits@, keep, self.current_commit@);
        }
        self.current_commit = commit_id;
        self.base_commit = commit_id;
        stale
    }
}

/// Why a transaction is not let into the pool.
#[derive(Debug)]
pub enum PreverifyError {
    /// Some of its nullifiers are already spent.
    RepeatingNullifiers(Vec<[u8; 32]>),
    /// Its proof does not verify.
    InvalidProof,
    /// Its proof could not be checked.
    UncheckedProof,
}

/// Decides whether a transaction may enter the pool, given those of its
/// nullifiers that the state already holds and what the check of its proof
/// said (`None` where the check itself failed).
pub fn preverify(existing_nullifiers: Vec<[u8; 32]>, checked: Option<bool>) -> (outcome: Result<
    (),
    PreverifyError,
>)
    ensures
        match outcome {
            Ok(_) => existing_nullifiers@.len() == 0 && checked == Some(true),
            Err(PreverifyError::RepeatingNullifiers(found)) => existing_nullifiers@.len() > 0 && found
                == existing_nullifiers,
            Err(PreverifyError::InvalidProof) => existing_nullifiers@.len() == 0 && checked == Some(
                false,
            ),
            Err(PreverifyError::UncheckedProof) => existing_nullifiers@.len() == 0 && checked.is_none(),
        },
{
    if existing_nullifiers.len() > 0 {
        return Err(PreverifyError::RepeatingNullifiers(existing_nullifiers));
    }
    match checked {
        Some(true) => Ok(()),
        Some(false) => Err(PreverifyError::InvalidProof),
        None => Err(PreverifyError::UncheckedProof),
    }
}

} // verus!
