//! A flat list of addresses with its writer: the list is written when it
//! has changed, and no sooner than a cooldown after the last write ended.

use vstd::prelude::*;
use crate::file_store::ReadError;
use crate::paths::{staged, Paths};
use crate::scheduler::{elapsed, Scheduler, Tick, WriteOutcome};
use crate::snapshot::{clone_strings, same_strings, texts};

verus! {

/// The time, in milliseconds, that must have passed since the last write
/// ended before the next one starts.
pub const MIN_WRITE_INTERVAL: u64 = 10000;

/// The list as it was last handed out to be written, with its writer.
#[derive(Debug)]
pub struct Enabled {
    paths: Paths,
    scheduler: Scheduler,
    entries: Vec<String>,
}

/// The persistence of the address list: switched off, or on.
#[derive(Debug)]
pub enum PeerAddressesPersistence {
    Disabled,
    Enabled(Enabled),
}

impl Enabled {
    /// The addresses that were last handed out to be written; before the
    /// first write, those that were restored.
    pub closed spec fn held(&self) -> Seq<Seq<char>> {
        texts(self.entries@)
    }

    /// The state of the writer.
    pub closed spec fn scheduler(&self) -> Scheduler {
        self.scheduler
    }

    /// The files that the list is written to.
    pub closed spec fn paths(&self) -> Paths {
        self.paths
    }

    /// The files that the list is written to.
    pub fn files(&self) -> (paths: &Paths)
        ensures
            *paths == self.paths(),
    {
        &self.paths
    }

    /// Whether a write is in flight.
    pub fn is_writing(&self) -> (writing: bool)
        ensures
            writing == self.scheduler().writing,
    {
        self.scheduler.writing
    }

    /// Whether the cooldown has passed at `now`.
    pub fn can_flush(&self, now: u64) -> (can: bool)
        ensures
            can == (elapsed(self.scheduler().flushed_at, now) > self.scheduler().cooldown),
    {
        self.scheduler.can_flush(now)
    }

    /// Whether `after` is what one poll makes of `self`, where the poll
    /// sees `tick` and the list `latest`, and `wrote` says whether it
    /// handed out a write.
    pub open spec fn polled(self, after: Enabled, tick: Tick, latest: Seq<Seq<char>>, wrote: bool) -> bool {
        &&& tick.dirty == (latest != self.held())
        &&& after.paths() == self.paths()
        &&& after.scheduler() == self.scheduler().after(tick)
        &&& wrote == self.scheduler().starts(tick)
        &&& after.held() == (if wrote {
            latest
        } else {
            self.held()
        })
    }

    /// One poll. `finished` says how the write in flight ended, if it has;
    /// `latest` is the list as it is now. The result is the list to write
    /// now, if a write is due: none while a write is in flight, none before
    /// the cooldown has passed, none where `latest` is what is held.
    pub fn poll(&mut self, now: u64, finished: Option<WriteOutcome>, latest: &Vec<String>) -> (write:
        Option<Vec<String>>)
        ensures
            old(self).polled(
                *final(self),
                Tick { now, finished: finished is Some, dirty: texts(latest@) != old(self).held() },
                texts(latest@),
                write is Some,
            ),
            write matches Some(list) ==> texts(list@) == texts(latest@),
    {
        if self.scheduler.settle(now, finished.is_some()) {
            return None;
        }
        if !self.can_flush(now) {
            return None;
        }
        if same_strings(latest, &self.entries) {
            return None;
        }
        self.entries = clone_strings(latest);
        self.scheduler.begin();
        Some(clone_strings(latest))
    }
}

impl PeerAddressesPersistence {
    /// The addresses held; none where persistence is switched off.
    pub open spec fn held(&self) -> Seq<Seq<char>> {
        match self {
            PeerAddressesPersistence::Enabled(enabled) => enabled.held(),
            PeerAddressesPersistence::Disabled => Seq::empty(),
        }
    }

    /// Persistence for the file `path`, switched off where there is none.
    /// The staging file stands beside the final one, under the same name
    /// with the extension `tmp`. The list starts as what was read from the
    /// final file, and empty where that failed in whatever way; the
    /// cooldown runs from `now`.
    pub fn init(path: Option<&str>, restored: Result<Vec<String>, ReadError>, now: u64) -> (state:
        PeerAddressesPersistence)
        ensures
            path is None ==> state is Disabled,
            path matches Some(file) ==> (state matches PeerAddressesPersistence::Enabled(enabled)
                && enabled.paths().path@ == file@ && enabled.paths().tmp_path@ == staged(file@)
                && enabled.scheduler() == (Scheduler {
                cooldown: MIN_WRITE_INTERVAL,
                flushed_at: now,
                writing: false,
            }) && enabled.held() == (match restored {
                Ok(list) => texts(list@),
                Err(_) => Seq::empty(),
            })),
    {
        match path {
            Some(file) => {
                let files = Paths::beside(file);
                let entries = match restored {
                    Ok(list) => list,
                    Err(_) => Vec::new(),
                };
                assert(restored is Err ==> texts(entries@) =~= Seq::<Seq<char>>::empty());
                PeerAddressesPersistence::Enabled(
                    Enabled { paths: files, scheduler: Scheduler::new(MIN_WRITE_INTERVAL, now), entries },
                )
            },
            None => PeerAddressesPersistence::Disabled,
        }
    }

    /// The addresses held; none where persistence is switched off.
    pub fn entries(&self) -> (list: Vec<String>)
        ensures
            texts(list@) == self.held(),
    {
        match self {
            PeerAddressesPersistence::Enabled(enabled) => clone_strings(&enabled.entries),
            PeerAddressesPersistence::Disabled => {
                let list: Vec<String> = Vec::new();
                assert(texts(list@) =~= Seq::<Seq<char>>::empty());
                list
            },
        }
    }

    /// One poll: that of the enabled state; nothing where persistence is
    /// switched off.
    pub fn poll(&mut self, now: u64, finished: Option<WriteOutcome>, latest: &Vec<String>) -> (write:
        Option<Vec<String>>)
        ensures
            *old(self) is Disabled ==> write is None && *final(self) is Disabled,
            *old(self) is Enabled ==> *final(self) is Enabled && (*old(self))->Enabled_0.polled(
                (*final(self))->Enabled_0,
                Tick {
                    now,
                    finished: finished is Some,
                    dirty: texts(latest@) != (*old(self))->Enabled_0.held(),
                },
                texts(latest@),
                write is Some,
            ),
            write matches Some(list) ==> texts(list@) == texts(latest@),
    {
        match self {
            PeerAddressesPersistence::Enabled(enabled) => enabled.poll(now, finished, latest),
            PeerAddressesPersistence::Disabled => None,
        }
    }
}

} // verus!
