use vstd::prelude::*;

verus! {

/// Published snapshots between two publications of the reader statistics.
pub const STATS_PERIOD: u32 = 60;

/// Pause (in milliseconds) while polling is disabled.
pub const IDLE_SLEEP_MILLIS: u64 = 50;

/// Pause (in milliseconds) after a failed snapshot update.
pub const RETRY_SLEEP_MILLIS: u64 = 100;

/// What happened in one iteration of the background reader loop.
#[derive(Clone, Copy, Debug, PartialEq, Eq, Structural)]
pub enum ReaderEvent {
    /// Polling is disabled; nothing was read.
    Disabled,
    /// Reading the game state failed; nothing was published.
    SnapshotFailed,
    /// A fresh snapshot was written into the write buffer and published.
    SnapshotPublished,
}

/// What the reader loop does next.
#[derive(Clone, Copy, Debug, PartialEq, Eq, Structural)]
pub enum ReaderAction {
    /// Pause for the given number of milliseconds, then start the next iteration.
    Sleep { millis: u64 },
    /// Carry on with the iteration, publishing the statistics first when asked to.
    Continue { publish_stats: bool },
}

/// Where the statistics counter goes after one more published snapshot.
pub open spec fn next_counter(counter: int) -> int {
    if counter + 1 >= STATS_PERIOD { 0 } else { counter + 1 }
}

/// Whether one more published snapshot completes a statistics period.
pub open spec fn completes_period(counter: int) -> bool {
    counter + 1 >= STATS_PERIOD
}

/// Bookkeeping of the background reader: which of the two snapshot buffers
/// is published, and how many snapshots were published since the reader
/// statistics were last published.
///
/// Double buffering: while the render thread reads the published buffer,
/// the reader rewrites the other one.
pub struct ReaderCycle {
    published_index: usize,
    stats_counter: u32,
}

impl ReaderCycle {
    /// Index (0 or 1) of the snapshot buffer that is currently published.
    pub closed spec fn published(&self) -> int {
        self.published_index as int
    }

    /// Snapshots published since the statistics were last published.
    pub closed spec fn counter(&self) -> int {
        self.stats_counter as int
    }

    pub open spec fn wf(&self) -> bool {
        &&& 0 <= self.published() < 2
        &&& 0 <= self.counter() < STATS_PERIOD
    }

    pub fn new() -> (cycle: Self)
        ensures
            cycle.wf(),
            cycle.published() == 0,
            cycle.counter() == 0,
    {
        ReaderCycle { published_index: 0, stats_counter: 0 }
    }

    pub fn published_index(&self) -> (index: usize)
        ensures
            index == self.published(),
    {
        self.published_index
    }

    /// The buffer the next snapshot is written into: never the published one.
    pub fn write_index(&self) -> (index: usize)
        requires
            self.wf(),
        ensures
            index == 1 - self.published(),
            index < 2,
            index != self.published(),
    {
        1 - self.published_index
    }

    /// Advance the bookkeeping by one loop iteration.
    pub fn step(&mut self, event: ReaderEvent) -> (action: ReaderAction)
        requires
            old(self).wf(),
        ensures
            final(self).wf(),
            match event {
                ReaderEvent::Disabled => {
                    &&& action == ReaderAction::Sleep { millis: IDLE_SLEEP_MILLIS }
                    &&& final(self).published() == old(self).published()
                    &&& final(self).counter() == old(self).counter()
                },
                ReaderEvent::SnapshotFailed => {
                    &&& action == ReaderAction::Sleep { millis: RETRY_SLEEP_MILLIS }
                    &&& final(self).published() == old(self).published()
                    &&& final(self).counter() == old(self).counter()
                },
                ReaderEvent::SnapshotPublished => {
                    &&& final(self).published() == 1 - old(self).published()
                    &&& final(self).counter() == next_counter(old(self).counter())
                    &&& action == ReaderAction::Continue {
                        publish_stats: completes_period(old(self).counter()),
                    }
                },
            },
    {
        match event {
            ReaderEvent::Disabled => ReaderAction::Sleep { millis: IDLE_SLEEP_MILLIS },
            ReaderEvent::SnapshotFailed => ReaderAction::Sleep { millis: RETRY_SLEEP_MILLIS },
            ReaderEvent::SnapshotPublished => {
                self.published_index = 1 - self.published_index;
                self.stats_counter = self.stats_counter + 1;
                if self.stats_counter >= STATS_PERIOD {
                    self.stats_counter = 0;
                    ReaderAction::Continue { publish_stats: true }
                } else {
                    ReaderAction::Continue { publish_stats: false }
                }
            },
        }
    }
}


/// The statistics counter after `k` published snapshots, starting from zero.
pub open spec fn counter_after(k: nat) -> int
    decreases k,
{
    if k == 0 { 0 } else { next_counter(counter_after((k - 1) as nat)) }
}

/// How many times the statistics were published during the first `k`
/// published snapshots, starting from a zero counter.
pub open spec fn stats_publications_after(k: nat) -> int
    decreases k,
{
    if k == 0 {
        0
    } else {
        stats_publications_after((k - 1) as nat) + if completes_period(counter_after((k - 1) as nat)) {
            1int
        } else {
            0int
        }
    }
}

/// The reader statistics are published once every `STATS_PERIOD` published
/// snapshots: after `k` publications from a fresh cycle the counter holds
/// `k % STATS_PERIOD` and the statistics went out `k / STATS_PERIOD` times.
pub proof fn lemma_stats_published_every_period(k: nat)
    ensures
        counter_after(k) == (k as int) % (STATS_PERIOD as int),
        stats_publications_after(k) == (k as int) / (STATS_PERIOD as int),
    decreases k,
{
    if k > 0 {
        lemma_stats_published_every_period((k - 1) as nat);
    }
}

/// The rest of the poll interval (in nanoseconds) after `work_time_nanos` of
/// work, or `None` when the work took the whole interval or longer.
pub fn pause_after_work(poll_interval_us: u32, work_time_nanos: u64) -> (pause: Option<u64>)
    ensures
        work_time_nanos < poll_interval_us * 1000 ==> pause == Some(
            (poll_interval_us * 1000 - work_time_nanos) as u64,
        ),
        work_time_nanos >= poll_interval_us * 1000 ==> pause is None,
        work_time_nanos + match pause {
            Some(p) => p as int,
            None => 0int,
        } >= poll_interval_us * 1000,
{
    let interval: u64 = poll_interval_us as u64 * 1000;
    if work_time_nanos < interval {
        Some(interval - work_time_nanos)
    } else {
        None
    }
}


/// `new` is `old` with the players dropped and no camera target, as when
/// there is no local player controller.
pub open spec fn cleared_for_missing_controller<P>(old: EspSnapshot<P>, new: EspSnapshot<P>) -> bool {
    &&& new.players@.len() == 0
    &&& new.view_target_entity_id is None
    &&& new.local_team_id == old.local_team_id
    &&& new.captured_at == old.captured_at
}

/// `new` is `old` restarted for a frame with the given local team and camera
/// target, and without players.
pub open spec fn players_begun<P>(
    old: EspSnapshot<P>,
    new: EspSnapshot<P>,
    local_team_id: u8,
    view_target_entity_id: Option<u32>,
) -> bool {
    &&& new.local_team_id == local_team_id
    &&& new.view_target_entity_id == view_target_entity_id
    &&& new.players@.len() == 0
    &&& new.captured_at == old.captured_at
}

/// An immutable, plain-data view of everything the player overlay needs,
/// produced by the background reader and consumed by the render thread.
#[derive(Debug)]
pub struct EspSnapshot<P> {
    /// When the contained game state was captured (nanoseconds on a monotonic clock).
    pub captured_at: Option<u64>,
    pub local_team_id: u8,
    pub view_target_entity_id: Option<u32>,
    pub players: Vec<P>,
}

impl<P> EspSnapshot<P> {
    /// A snapshot with nothing captured yet.
    pub fn new() -> (snapshot: Self)
        ensures
            snapshot.captured_at is None,
            snapshot.local_team_id == 0,
            snapshot.view_target_entity_id is None,
            snapshot.players@.len() == 0,
    {
        EspSnapshot { captured_at: None, local_team_id: 0, view_target_entity_id: None, players: Vec::new() }
    }

    /// There is no local player controller: nothing to show and nothing watched.
    pub fn clear_for_missing_controller(&mut self)
        ensures
            cleared_for_missing_controller(*old(self), *final(self)),
    {
        self.players.clear();
        self.view_target_entity_id = None;
    }

    /// Start filling the snapshot for a new frame: record the local team and
    /// the entity the camera follows, and drop the previous players.
    /// Returns the entity whose neighbours are to be scanned; `None` means
    /// the camera follows nobody and the snapshot stays without players.
    pub fn begin_players(&mut self, local_team_id: u8, view_target_entity_id: Option<u32>) -> (scan: Option<u32>)
        ensures
            scan == view_target_entity_id,
            players_begun(*old(self), *final(self), local_team_id, view_target_entity_id),
    {
        self.local_team_id = local_team_id;
        self.view_target_entity_id = view_target_entity_id;
        self.players.clear();
        view_target_entity_id
    }

    /// Stamp the snapshot with the time its game state was captured.
    pub fn mark_captured(&mut self, time: u64)
        ensures
            final(self).captured_at == Some(time),
            final(self).local_team_id == old(self).local_team_id,
            final(self).view_target_entity_id == old(self).view_target_entity_id,
            final(self).players@ == old(self).players@,
    {
        self.captured_at = Some(time);
    }
}

/// A snapshot restarted for a frame does not depend on what the reused
/// buffer held before: two buffers restarted with the same local team and
/// camera target, or both cleared for a missing controller, agree on the
/// players and the camera target.
pub proof fn lemma_restart_forgets_previous<P>(
    old1: EspSnapshot<P>,
    new1: EspSnapshot<P>,
    old2: EspSnapshot<P>,
    new2: EspSnapshot<P>,
    local_team_id: u8,
    view_target_entity_id: Option<u32>,
)
    requires
        players_begun(old1, new1, local_team_id, view_target_entity_id) && players_begun(
            old2,
            new2,
            local_team_id,
            view_target_entity_id,
        ) || cleared_for_missing_controller(old1, new1) && cleared_for_missing_controller(old2, new2),
    ensures
        new1.players@ == new2.players@,
        new1.view_target_entity_id == new2.view_target_entity_id,
{
}

impl<P> Default for EspSnapshot<P> {
    fn default() -> (snapshot: Self)
        ensures
            snapshot.captured_at is None,
            snapshot.local_team_id == 0,
            snapshot.view_target_entity_id is None,
            snapshot.players@.len() == 0,
    {
        Self::new()
    }
}

/// Class name of the entities that are player pawns.
pub const PLAYER_PAWN_CLASS: &'static str = "C_CSPlayerPawn";

/// One fact read about an entity while building a snapshot.
pub enum EntityObservation<'a> {
    /// The entity's index.
    Index(u32),
    /// The entity's class name, if the class is known.
    ClassName(Option<&'a String>),
    /// Whether the pawn is alive.
    PawnAlive(bool),
    /// The pawn's health and whether it has a player name.
    PawnInfo { health: i32, has_name: bool },
}

/// What to do with an entity after an observation.
#[derive(Clone, Copy, Debug, PartialEq, Eq, Structural)]
pub enum EntityVerdict {
    /// The entity is not shown; move on to the next one.
    Skip,
    /// Look up the entity's class name next.
    ReadClass,
    /// Read whether the pawn is alive next.
    ReadPawnState,
    /// Read the pawn's health and name next.
    ReadPawnInfo,
    /// The pawn is shown: read its model and add it to the snapshot.
    Keep,
}

/// The verdict on one observation: the entity the camera follows is
/// skipped, as are entities that are not player pawns, pawns that are not
/// alive, and pawns without health or without a name.
pub open spec fn verdict_of(view_target_entity_id: u32, observation: EntityObservation) -> EntityVerdict {
    match observation {
        EntityObservation::Index(index) => if index == view_target_entity_id {
            EntityVerdict::Skip
        } else {
            EntityVerdict::ReadClass
        },
        EntityObservation::ClassName(name) => if name matches Some(n) && n@ == PLAYER_PAWN_CLASS@ {
            EntityVerdict::ReadPawnState
        } else {
            EntityVerdict::Skip
        },
        EntityObservation::PawnAlive(alive) => if alive {
            EntityVerdict::ReadPawnInfo
        } else {
            EntityVerdict::Skip
        },
        EntityObservation::PawnInfo { health, has_name } => if health <= 0 || !has_name {
            EntityVerdict::Skip
        } else {
            EntityVerdict::Keep
        },
    }
}

/// The player rule in one place: an entity is shown when it is not the
/// entity the camera follows, is a player pawn, is alive, has health left
/// and has a name.
pub open spec fn shows_player(
    view_target_entity_id: u32,
    entity_index: u32,
    class_name: Option<Seq<char>>,
    alive: bool,
    health: i32,
    has_name: bool,
) -> bool {
    &&& entity_index != view_target_entity_id
    &&& class_name == Some(PLAYER_PAWN_CLASS@)
    &&& alive
    &&& health > 0
    &&& has_name
}

/// Going through an entity's observations in order, each verdict asks for
/// the next read and the last one keeps the entity exactly when the
/// player rule holds.
pub proof fn lemma_entity_filter_is_player_rule(
    view_target_entity_id: u32,
    entity_index: u32,
    class_name: Option<&String>,
    alive: bool,
    health: i32,
    has_name: bool,
)
    ensures
        ({
            &&& verdict_of(view_target_entity_id, EntityObservation::Index(entity_index)) == EntityVerdict::ReadClass
            &&& verdict_of(view_target_entity_id, EntityObservation::ClassName(class_name)) == EntityVerdict::ReadPawnState
            &&& verdict_of(view_target_entity_id, EntityObservation::PawnAlive(alive)) == EntityVerdict::ReadPawnInfo
            &&& verdict_of(view_target_entity_id, EntityObservation::PawnInfo { health, has_name }) == EntityVerdict::Keep
        }) <==> shows_player(
            view_target_entity_id,
            entity_index,
            match class_name {
                Some(n) => Some(n@),
                None => None,
            },
            alive,
            health,
            has_name,
        ),
{
}

/// Decide, from one observation, how to go on with an entity: the entity the
/// camera follows is skipped, as are entities that are not player pawns,
/// pawns that are not alive, and pawns without health or without a name.
pub fn judge_entity(view_target_entity_id: u32, observation: &EntityObservation) -> (verdict: EntityVerdict)
    ensures
        verdict == verdict_of(view_target_entity_id, *observation),
{
    match observation {
        EntityObservation::Index(index) => {
            if *index == view_target_entity_id {
                EntityVerdict::Skip
            } else {
                EntityVerdict::ReadClass
            }
        },
        EntityObservation::ClassName(name) => {
            match name {
                Some(n) => {
                    let expected = PLAYER_PAWN_CLASS.to_owned();
                    if **n == expected {
                        EntityVerdict::ReadPawnState
                    } else {
                        EntityVerdict::Skip
                    }
                },
                None => EntityVerdict::Skip,
            }
        },
        EntityObservation::PawnAlive(alive) => {
            if *alive {
                EntityVerdict::ReadPawnInfo
            } else {
                EntityVerdict::Skip
            }
        },
        EntityObservation::PawnInfo { health, has_name } => {
            if *health <= 0 || !*has_name {
                EntityVerdict::Skip
            } else {
                EntityVerdict::Keep
            }
        },
    }
}

} // verus!
