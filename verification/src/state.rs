use vstd::prelude::*;

use crate::git::{clamp32, spec_sum_added, spec_sum_deleted, spec_sum_msg_len, CommitStats};
use crate::scaling::{total_xp_gain, spec_total_xp_gain, XpType};

verus! {

/// Cumulative experience per stat. `total` receives every gain; each
/// named pool receives the gains earned while it was the active stat.
#[derive(Clone, Copy, Debug, PartialEq, Eq, Structural)]
pub struct Experience {
    pub total: u128,
    pub precision: u128,
    pub output: u128,
    pub pedantry: u128,
    pub knowledge: u128,
}

/// The per-repository checkpoint: the most recently processed commit,
/// which scopes the next scan to commits made after it.
#[derive(Clone, Debug)]
pub struct RepoState {
    pub last_recorded_commit: String,
}

/// Why a ledger operation was refused.
#[derive(Clone, Copy, Debug, PartialEq, Eq, Structural)]
pub enum StateError {
    /// The repository has no checkpoint entry; it was never registered.
    RepoNotRegistered,
    /// The virtual `Total` pool cannot be selected as the active stat.
    InvalidStat,
}

/// The persisted ledger: cumulative experience, the active stat, and
/// the checkpoint entry of every registered repository.
#[derive(Debug)]
pub struct State {
    pub experience: Experience,
    pub current_stat: XpType,
    pub repos: Vec<(String, RepoState)>,
}

/// A zero-valued experience record.
pub open spec fn spec_zero_experience() -> Experience {
    Experience { total: 0, precision: 0, output: 0, pedantry: 0, knowledge: 0 }
}

/// The pool that the given stat draws from, or zero for the virtual
/// `Total` pool, which only mirrors gains.
pub open spec fn spec_active_pool(exp: Experience, stat: XpType) -> int {
    match stat {
        XpType::Total => 0,
        XpType::Precision => exp.precision as int,
        XpType::Output => exp.output as int,
        XpType::Pedantry => exp.pedantry as int,
        XpType::Knowledge => exp.knowledge as int,
    }
}

/// The experience record after crediting `amt` to `total` and to the
/// pool of the active stat (no pool when the active stat is the
/// virtual `Total`).
pub open spec fn spec_exp_after_gain(exp: Experience, stat: XpType, amt: int) -> Experience {
    Experience {
        total: (exp.total + amt) as u128,
        precision: if stat == XpType::Precision {
            (exp.precision + amt) as u128
        } else {
            exp.precision
        },
        output: if stat == XpType::Output {
            (exp.output + amt) as u128
        } else {
            exp.output
        },
        pedantry: if stat == XpType::Pedantry {
            (exp.pedantry + amt) as u128
        } else {
            exp.pedantry
        },
        knowledge: if stat == XpType::Knowledge {
            (exp.knowledge + amt) as u128
        } else {
            exp.knowledge
        },
    }
}

/// Whether some checkpoint entry carries the given repository id.
pub open spec fn entries_contain(entries: Seq<(String, RepoState)>, key: Seq<char>) -> bool {
    exists|i: int| 0 <= i < entries.len() && entries[i].0@ == key
}

/// The index of the checkpoint entry carrying the given repository id.
pub open spec fn entry_index_of(entries: Seq<(String, RepoState)>, key: Seq<char>) -> int {
    choose|i: int| 0 <= i < entries.len() && entries[i].0@ == key
}

/// No two checkpoint entries carry the same repository id.
pub open spec fn entries_unique(entries: Seq<(String, RepoState)>) -> bool {
    forall|i: int, j: int|
        0 <= i < j < entries.len() ==> (#[trigger] entries[i]).0@ != (#[trigger] entries[j]).0@
}

/// The checkpoint entries as a map from repository id to the last
/// recorded commit.
pub open spec fn entries_map(entries: Seq<(String, RepoState)>) -> Map<Seq<char>, Seq<char>> {
    Map::new(
        |key: Seq<char>| entries_contain(entries, key),
        |key: Seq<char>| entries[entry_index_of(entries, key)].1.last_recorded_commit@,
    )
}

/// An entry of a duplicate-free checkpoint list determines the map's
/// value at its repository id.
pub proof fn lemma_entry_value(entries: Seq<(String, RepoState)>, j: int)
    requires
        entries_unique(entries),
        0 <= j < entries.len(),
    ensures
        entries_map(entries).contains_key(entries[j].0@),
        entries_map(entries)[entries[j].0@] == entries[j].1.last_recorded_commit@,
{
    let key = entries[j].0@;
    assert(entries_contain(entries, key));
    let i = entry_index_of(entries, key);
    assert(0 <= i < entries.len() && entries[i].0@ == key);
    if i != j {
        if i < j {
            assert(entries[i].0@ != entries[j].0@);
        } else {
            assert(entries[j].0@ != entries[i].0@);
        }
    }
}

/// Replacing the entry at `i` by one carrying the same repository id
/// updates the map at that id and nothing else.
pub proof fn lemma_map_after_update(
    entries: Seq<(String, RepoState)>,
    i: int,
    e: (String, RepoState),
)
    requires
        entries_unique(entries),
        0 <= i < entries.len(),
        e.0@ == entries[i].0@,
    ensures
        entries_unique(entries.update(i, e)),
        entries_map(entries.update(i, e)) == entries_map(entries).insert(
            e.0@,
            e.1.last_recorded_commit@,
        ),
{
    let after = entries.update(i, e);
    assert forall|p: int, q: int| 0 <= p < q < after.len() implies (#[trigger] after[p]).0@ != (
    #[trigger] after[q]).0@ by {
        assert(entries[p].0@ != entries[q].0@);
    }
    let m1 = entries_map(after);
    let m2 = entries_map(entries).insert(e.0@, e.1.last_recorded_commit@);
    assert forall|key: Seq<char>| m1.contains_key(key) implies m2.contains_key(key) by {
        let w = choose|w: int| 0 <= w < after.len() && after[w].0@ == key;
        assert(entries[w].0@ == after[w].0@);
    }
    assert forall|key: Seq<char>| m2.contains_key(key) implies m1.contains_key(key) by {
        if key == e.0@ {
            assert(after[i].0@ == key);
        } else {
            let w = choose|w: int| 0 <= w < entries.len() && entries[w].0@ == key;
            assert(after[w].0@ == key);
        }
    }
    assert forall|key: Seq<char>| m1.contains_key(key) implies m1[key] == m2[key] by {
        if key == e.0@ {
            lemma_entry_value(after, i);
        } else {
            let w = choose|w: int| 0 <= w < after.len() && after[w].0@ == key;
            assert(w != i);
            lemma_entry_value(after, w);
            lemma_entry_value(entries, w);
        }
    }
    assert(m1 =~= m2);
}

/// Appending an entry with a fresh repository id updates the map at
/// that id and nothing else.
pub proof fn lemma_map_after_push(entries: Seq<(String, RepoState)>, e: (String, RepoState))
    requires
        entries_unique(entries),
        !entries_contain(entries, e.0@),
    ensures
        entries_unique(entries.push(e)),
        entries_map(entries.push(e)) == entries_map(entries).insert(
            e.0@,
            e.1.last_recorded_commit@,
        ),
{
    let after = entries.push(e);
    let n = entries.len() as int;
    assert forall|p: int, q: int| 0 <= p < q < after.len() implies (#[trigger] after[p]).0@ != (
    #[trigger] after[q]).0@ by {
        if q < n {
            assert(entries[p].0@ != entries[q].0@);
        } else {
            assert(after[q] == e);
            assert(after[p] == entries[p]);
            if entries[p].0@ == e.0@ {
                assert(entries_contain(entries, e.0@));
            }
        }
    }
    let m1 = entries_map(after);
    let m2 = entries_map(entries).insert(e.0@, e.1.last_recorded_commit@);
    assert forall|key: Seq<char>| m1.contains_key(key) implies m2.contains_key(key) by {
        let w = choose|w: int| 0 <= w < after.len() && after[w].0@ == key;
        if w < n {
            assert(entries[w].0@ == key);
        }
    }
    assert forall|key: Seq<char>| m2.contains_key(key) implies m1.contains_key(key) by {
        if key == e.0@ {
            assert(after[n].0@ == key);
        } else {
            let w = choose|w: int| 0 <= w < entries.len() && entries[w].0@ == key;
            assert(after[w].0@ == key);
        }
    }
    assert forall|key: Seq<char>| m1.contains_key(key) implies m1[key] == m2[key] by {
        if key == e.0@ {
            lemma_entry_value(after, n);
        } else {
            let w = choose|w: int| 0 <= w < after.len() && after[w].0@ == key;
            assert(w != n);
            lemma_entry_value(after, w);
            lemma_entry_value(entries, w);
        }
    }
    assert(m1 =~= m2);
}

impl State {
    /// The checkpoint entries carry pairwise distinct repository ids.
    pub open spec fn wf(self) -> bool {
        entries_unique(self.repos@)
    }

    /// The registered repositories as a map from repository id to the
    /// last recorded commit.
    pub open spec fn repos_map(self) -> Map<Seq<char>, Seq<char>> {
        entries_map(self.repos@)
    }

    /// A fresh ledger: no experience, `Knowledge` as the active stat,
    /// and no registered repositories.
    pub fn new() -> (r: State)
        ensures
            r.experience == spec_zero_experience(),
            r.current_stat == XpType::Knowledge,
            r.repos@.len() == 0,
            r.wf(),
            r.repos_map() == Map::<Seq<char>, Seq<char>>::empty(),
    {
        let s = State {
            experience: Experience { total: 0, precision: 0, output: 0, pedantry: 0, knowledge: 0 },
            current_stat: XpType::Knowledge,
            repos: Vec::new(),
        };
        proof {
            assert(s.repos_map() =~= Map::<Seq<char>, Seq<char>>::empty());
        }
        s
    }

    /// The current experience record.
    pub fn read_xp(&self) -> (r: Experience)
        ensures
            r == self.experience,
    {
        self.experience
    }

    /// The stat currently credited with new gains.
    pub fn read_current_stat(&self) -> (r: XpType)
        ensures
            r == self.current_stat,
    {
        self.current_stat
    }

    /// Select the stat that future gains are credited to. The virtual
    /// `Total` pool cannot be selected; everything else is accepted
    /// and nothing besides the selection changes.
    pub fn set_current_stat(&mut self, stat: XpType) -> (r: Result<(), StateError>)
        ensures
            stat == XpType::Total ==> r == Err::<(), StateError>(StateError::InvalidStat)
                && *final(self) == *old(self),
            stat != XpType::Total ==> r == Ok::<(), StateError>(()) && final(self).current_stat
                == stat && final(self).experience == old(self).experience && final(self).repos
                == old(self).repos,
    {
        if let XpType::Total = stat {
            return Err(StateError::InvalidStat);
        }
        self.current_stat = stat;
        Ok(())
    }

    /// Zero every experience pool. The active-stat selection and all
    /// checkpoints are preserved.
    pub fn reset_xp(&mut self)
        ensures
            final(self).experience == spec_zero_experience(),
            final(self).current_stat == old(self).current_stat,
            final(self).repos == old(self).repos,
    {
        self.experience = Experience { total: 0, precision: 0, output: 0, pedantry: 0, knowledge: 0 };
    }

    /// Credit `amt` to `total` and to the pool of the active stat (a
    /// gain under the virtual `Total` stat feeds no named pool). The
    /// bounds are machine limits: the pools must not overflow.
    pub fn inc_xp(&mut self, amt: u128) -> (r: Experience)
        requires
            old(self).experience.total + amt <= u128::MAX,
            spec_active_pool(old(self).experience, old(self).current_stat) + amt <= u128::MAX,
        ensures
            final(self).experience == spec_exp_after_gain(
                old(self).experience,
                old(self).current_stat,
                amt as int,
            ),
            r == final(self).experience,
            final(self).current_stat == old(self).current_stat,
            final(self).repos == old(self).repos,
    {
        self.experience.total = self.experience.total + amt;
        match self.current_stat {
            XpType::Total => {},
            XpType::Knowledge => {
                self.experience.knowledge = self.experience.knowledge + amt;
            },
            XpType::Precision => {
                self.experience.precision = self.experience.precision + amt;
            },
            XpType::Output => {
                self.experience.output = self.experience.output + amt;
            },
            XpType::Pedantry => {
                self.experience.pedantry = self.experience.pedantry + amt;
            },
        }
        self.experience
    }

    /// Register a repository under its id with an initial checkpoint.
    /// Registering an id again overwrites its checkpoint; nothing else
    /// in the ledger changes.
    pub fn add_repo(&mut self, repo_id: String, last_recorded_commit: String)
        requires
            old(self).wf(),
        ensures
            final(self).wf(),
            final(self).repos_map() == old(self).repos_map().insert(
                repo_id@,
                last_recorded_commit@,
            ),
            final(self).experience == old(self).experience,
            final(self).current_stat == old(self).current_stat,
    {
        let n = self.repos.len();
        let mut i: usize = 0;
        while i < n
            invariant
                *self == *old(self),
                old(self).wf(),
                n == self.repos@.len(),
                i <= n,
                forall|j: int| 0 <= j < i ==> (#[trigger] self.repos@[j]).0@ != repo_id@,
            decreases n - i,
        {
            if self.repos[i].0 == repo_id {
                let ghost before = self.repos@;
                self.repos[i] = (repo_id, RepoState { last_recorded_commit });
                proof {
                    lemma_map_after_update(before, i as int, self.repos@[i as int]);
                }
                return ;
            }
            i = i + 1;
        }
        let ghost before = self.repos@;
        self.repos.push((repo_id, RepoState { last_recorded_commit }));
        proof {
            lemma_map_after_push(before, self.repos@[before.len() as int]);
        }
    }

    /// The checkpoint stored for a repository, or `RepoNotRegistered`
    /// exactly when no entry carries its id.
    pub fn repo_state(&self, repo_id: &str) -> (r: Result<RepoState, StateError>)
        requires
            self.wf(),
        ensures
            match r {
                Ok(st) => self.repos_map().contains_key(repo_id@)
                    && st.last_recorded_commit@ == self.repos_map()[repo_id@],
                Err(e) => e == StateError::RepoNotRegistered && !self.repos_map().contains_key(
                    repo_id@,
                ),
            },
    {
        let key: String = repo_id.to_owned();
        let n = self.repos.len();
        let mut i: usize = 0;
        while i < n
            invariant
                key@ == repo_id@,
                n == self.repos@.len(),
                i <= n,
                self.wf(),
                forall|j: int| 0 <= j < i ==> (#[trigger] self.repos@[j]).0@ != repo_id@,
            decreases n - i,
        {
            if self.repos[i].0 == key {
                proof {
                    lemma_entry_value(self.repos@, i as int);
                }
                return Ok(
                    RepoState {
                        last_recorded_commit: self.repos[i].1.last_recorded_commit.clone(),
                    },
                );
            }
            i = i + 1;
        }
        Err(StateError::RepoNotRegistered)
    }

    /// Advance the stored checkpoint of a registered repository, or
    /// refuse with `RepoNotRegistered`, leaving the ledger untouched,
    /// exactly when the repository has no entry.
    pub fn inc_last_commit(&mut self, repo_id: &str, new_commit: &str) -> (r: Result<
        (),
        StateError,
    >)
        requires
            old(self).wf(),
        ensures
            final(self).wf(),
            final(self).experience == old(self).experience,
            final(self).current_stat == old(self).current_stat,
            match r {
                Ok(u) => old(self).repos_map().contains_key(repo_id@) && final(self).repos_map()
                    == old(self).repos_map().insert(repo_id@, new_commit@),
                Err(e) => e == StateError::RepoNotRegistered && !old(self).repos_map().contains_key(
                    repo_id@,
                ) && *final(self) == *old(self),
            },
    {
        let key: String = repo_id.to_owned();
        let n = self.repos.len();
        let mut i: usize = 0;
        while i < n
            invariant
                *self == *old(self),
                old(self).wf(),
                key@ == repo_id@,
                n == self.repos@.len(),
                i <= n,
                forall|j: int| 0 <= j < i ==> (#[trigger] self.repos@[j]).0@ != repo_id@,
            decreases n - i,
        {
            if self.repos[i].0 == key {
                let ghost before = self.repos@;
                let kept: String = self.repos[i].0.clone();
                self.repos[i] = (kept, RepoState { last_recorded_commit: new_commit.to_owned() });
                proof {
                    lemma_entry_value(before, i as int);
                    lemma_map_after_update(before, i as int, self.repos@[i as int]);
                }
                return Ok(());
            }
            i = i + 1;
        }
        Err(StateError::RepoNotRegistered)
    }

    /// Whether the checkpoint entries carry pairwise distinct
    /// repository ids, as every ledger the library hands out does.
    /// Callers outside the verifier can test it before mutating.
    pub fn is_well_formed(&self) -> (r: bool)
        ensures
            r == self.wf(),
    {
        let n = self.repos.len();
        let mut i: usize = 0;
        while i < n
            invariant
                n == self.repos@.len(),
                i <= n,
                forall|p: int, q: int|
                    0 <= p < q < n && p < i ==> (#[trigger] self.repos@[p]).0@ != (
                    #[trigger] self.repos@[q]).0@,
            decreases n - i,
        {
            let mut j: usize = i + 1;
            while j < n
                invariant
                    n == self.repos@.len(),
                    i < n,
                    i + 1 <= j <= n,
                    forall|p: int, q: int|
                        0 <= p < q < n && p < i ==> (#[trigger] self.repos@[p]).0@ != (
                        #[trigger] self.repos@[q]).0@,
                    forall|q: int|
                        i < q < j ==> (#[trigger] self.repos@[q]).0@ != self.repos@[i as int].0@,
                decreases n - j,
            {
                if self.repos[i].0 == self.repos[j].0 {
                    return false;
                }
                j = j + 1;
            }
            i = i + 1;
        }
        true
    }

    /// One scan-and-update cycle on the in-memory ledger.
    ///
    /// A scan that found no new commits changes nothing and reports the
    /// experience as it stands, so running the cycle again with no new
    /// commits in between leaves every pool and every checkpoint as it
    /// was. A scan over new commits of a repository that was never
    /// registered refuses with `RepoNotRegistered` and changes nothing.
    /// Otherwise the summed statistics earn the reward that the
    /// composer assigns (clamped to the headroom the pools have left),
    /// the reward is credited to `total` and to the active stat, and
    /// the repository's checkpoint advances to the newest scanned
    /// commit.
    pub fn apply_scan(&mut self, repo_id: &str, stats: &Vec<CommitStats>) -> (r: Result<
        Experience,
        StateError,
    >)
        requires
            old(self).wf(),
        ensures
            final(self).wf(),
            final(self).current_stat == old(self).current_stat,
            stats@.len() == 0 ==> *final(self) == *old(self) && r == Ok::<Experience, StateError>(
                old(self).experience,
            ),
            stats@.len() > 0 && !old(self).repos_map().contains_key(repo_id@) ==> *final(self)
                == *old(self) && r == Err::<Experience, StateError>(StateError::RepoNotRegistered),
            stats@.len() > 0 && old(self).repos_map().contains_key(repo_id@) ==> ({
                let raw: int = spec_total_xp_gain(
                    old(self).experience,
                    clamp32(spec_sum_added(stats@)),
                    clamp32(spec_sum_deleted(stats@)),
                    clamp32(spec_sum_msg_len(stats@)),
                );
                let sat: int = if raw <= u128::MAX {
                    raw
                } else {
                    u128::MAX as int
                };
                let h1: int = u128::MAX - old(self).experience.total;
                let h2: int = u128::MAX - spec_active_pool(
                    old(self).experience,
                    old(self).current_stat,
                );
                let headroom: int = if h1 <= h2 {
                    h1
                } else {
                    h2
                };
                let gain: int = if sat <= headroom {
                    sat
                } else {
                    headroom
                };
                &&& final(self).experience == spec_exp_after_gain(
                    old(self).experience,
                    old(self).current_stat,
                    gain,
                )
                &&& final(self).repos_map() == old(self).repos_map().insert(
                    repo_id@,
                    stats@[0].sha@,
                )
                &&& r == Ok::<Experience, StateError>(final(self).experience)
            }),
    {
        if stats.is_empty() {
            return Ok(self.read_xp());
        }
        match self.repo_state(repo_id) {
            Err(e) => {
                return Err(e);
            },
            Ok(_) => {},
        }
        let (added, deleted, msg_len) = crate::git::summarize_commits(stats);
        let raw = total_xp_gain(&self.experience, added, deleted, msg_len);
        let h1: u128 = u128::MAX - self.experience.total;
        let h2: u128 = u128::MAX - (match self.current_stat {
            XpType::Total => 0,
            XpType::Precision => self.experience.precision,
            XpType::Output => self.experience.output,
            XpType::Pedantry => self.experience.pedantry,
            XpType::Knowledge => self.experience.knowledge,
        });
        let headroom: u128 = if h1 <= h2 {
            h1
        } else {
            h2
        };
        let gain: u128 = if raw <= headroom {
            raw
        } else {
            headroom
        };
        let exp = self.inc_xp(gain);
        match self.inc_last_commit(repo_id, stats[0].sha.as_str()) {
            Ok(_) => Ok(exp),
            Err(_) => {
                proof {
                    assert(false);
                }
                Err(StateError::RepoNotRegistered)
            },
        }
    }
}

} // verus!
