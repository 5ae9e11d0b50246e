use vstd::prelude::*;
use crate::defs::{Definitions, spec_find, spec_unit_ids};

verus! {

/// The building a player's construction yard is working on.
#[derive(Clone, Debug)]
pub struct BuildingQueueEntry {
    pub building_id: String,
    /// Time spent on it so far, in milliseconds.
    pub progress_ms: u64,
    /// Time it takes, in milliseconds.
    pub build_time_ms: u64,
}

/// A player's construction queue: at most one building under way and at
/// most one finished building waiting to be placed.
#[derive(Clone, Debug)]
pub struct BuildingQueue {
    pub current: Option<BuildingQueueEntry>,
    pub ready: Option<String>,
}

impl BuildingQueue {
    /// An idle queue.
    pub fn new() -> (r: BuildingQueue)
        ensures
            r.current is None,
            r.ready is None,
    {
        BuildingQueue { current: None, ready: None }
    }

    /// Advances the building under way by `delta_ms` milliseconds; once its
    /// time is reached it moves to the ready slot.
    pub fn tick(&mut self, delta_ms: u64)
        ensures
            match old(self).current {
                None => *final(self) == *old(self),
                Some(entry) => {
                    let progress = if entry.progress_ms + delta_ms > u64::MAX { u64::MAX as int } else { entry.progress_ms + delta_ms };
                    if progress >= entry.build_time_ms {
                        &&& final(self).current is None
                        &&& final(self).ready matches Some(id) && id@ == entry.building_id@
                    } else {
                        &&& final(self).ready == old(self).ready
                        &&& final(self).current matches Some(e) && e.building_id@ == entry.building_id@
                            && e.progress_ms == progress && e.build_time_ms == entry.build_time_ms
                    }
                },
            },
    {
        match self.current.take() {
            None => {},
            Some(entry) => {
                let progress = entry.progress_ms.saturating_add(delta_ms);
                if progress >= entry.build_time_ms {
                    self.ready = Some(entry.building_id);
                } else {
                    self.current = Some(BuildingQueueEntry {
                        building_id: entry.building_id,
                        progress_ms: progress,
                        build_time_ms: entry.build_time_ms,
                    });
                }
            },
        }
    }
}

/// The local player's power balance.
#[derive(Clone, Copy, Debug, PartialEq, Eq, Structural)]
pub struct PowerSystem {
    pub produced: i32,
    pub consumed: i32,
}

impl PowerSystem {
    /// No power plant, no consumer.
    pub fn new() -> (r: PowerSystem)
        ensures
            r.produced == 0,
            r.consumed == 0,
    {
        PowerSystem { produced: 0, consumed: 0 }
    }

    /// Counts a new building's production and consumption.
    pub fn add_building(&mut self, produced: i32, consumed: i32)
        requires
            i32::MIN <= old(self).produced + produced <= i32::MAX,
            i32::MIN <= old(self).consumed + consumed <= i32::MAX,
        ensures
            final(self).produced == old(self).produced + produced,
            final(self).consumed == old(self).consumed + consumed,
    {
        self.produced = self.produced + produced;
        self.consumed = self.consumed + consumed;
    }

    /// Stops counting a building that is gone.
    pub fn remove_building(&mut self, produced: i32, consumed: i32)
        requires
            i32::MIN <= old(self).produced - produced <= i32::MAX,
            i32::MIN <= old(self).consumed - consumed <= i32::MAX,
        ensures
            final(self).produced == old(self).produced - produced,
            final(self).consumed == old(self).consumed - consumed,
    {
        self.produced = self.produced - produced;
        self.consumed = self.consumed - consumed;
    }
}

/// Adding a building's figures and then removing them restores the balance.
pub proof fn law_power_add_remove_inverse(p: PowerSystem, produced: i32, consumed: i32)
    requires
        i32::MIN <= p.produced + produced <= i32::MAX,
        i32::MIN <= p.consumed + consumed <= i32::MAX,
    ensures
        (p.produced + produced) - produced == p.produced,
        (p.consumed + consumed) - consumed == p.consumed,
{
}

/// The units a factory has been ordered to train, first first, and the
/// time spent on the first one.
#[derive(Clone, Debug)]
pub struct ProductionQueue {
    pub queue: Vec<String>,
    pub progress_ms: u64,
}

impl ProductionQueue {
    /// An idle factory.
    pub fn new() -> (r: ProductionQueue)
        ensures
            r.queue@.len() == 0,
            r.progress_ms == 0,
    {
        ProductionQueue { queue: Vec::new(), progress_ms: 0 }
    }
}

/// What a factory does on one tick.
#[derive(Clone, Debug, PartialEq, Eq)]
pub enum ProductionStep {
    /// Nothing is queued.
    Idle,
    /// The first queued unit has no definition and was dropped.
    Dropped,
    /// The first queued unit is still in training.
    Training,
    /// The first queued unit is done and leaves the queue.
    Completed(String),
}

/// Advances a factory by `delta_ms` milliseconds: an unknown unit at the
/// head of the queue is dropped; otherwise the head's training advances and,
/// once its time is reached, it is done and the next one starts from zero.
pub fn production_tick(queue: &mut ProductionQueue, definitions: &Definitions, delta_ms: u64) -> (r: ProductionStep)
    ensures
        old(queue).queue@.len() == 0 ==> r == ProductionStep::Idle && *final(queue) == *old(queue),
        old(queue).queue@.len() > 0 ==> ({
            let head = old(queue).queue@[0];
            let di = spec_find(spec_unit_ids(definitions.units@), head@);
            let progress = if old(queue).progress_ms + delta_ms > u64::MAX { u64::MAX as int } else { old(queue).progress_ms + delta_ms };
            if di < 0 {
                &&& r == ProductionStep::Dropped
                &&& final(queue).queue@ == old(queue).queue@.drop_first()
                &&& final(queue).progress_ms == old(queue).progress_ms
            } else if progress >= definitions.units@[di].build_time_ms {
                &&& r matches ProductionStep::Completed(id) && id@ == head@
                &&& final(queue).queue@ == old(queue).queue@.drop_first()
                &&& final(queue).progress_ms == 0
            } else {
                &&& r == ProductionStep::Training
                &&& final(queue).queue@ == old(queue).queue@
                &&& final(queue).progress_ms == progress
            }
        }),
{
    if queue.queue.len() == 0 {
        return ProductionStep::Idle;
    }
    let build_time = match definitions.unit(queue.queue[0].as_str()) {
        None => {
            queue.queue.remove(0);
            return ProductionStep::Dropped;
        },
        Some(def) => def.build_time_ms,
    };
    queue.progress_ms = queue.progress_ms.saturating_add(delta_ms);
    if queue.progress_ms >= build_time {
        queue.progress_ms = 0;
        let done = queue.queue.remove(0);
        ProductionStep::Completed(done)
    } else {
        ProductionStep::Training
    }
}

} // verus!
