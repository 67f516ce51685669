//! The level-streaming state machine: sequences asset loading, the initial
//! collision-mesh build, a timed fade, and the switch into the running
//! simulation, and gates pause, popups, level end, death and restart.
//! "Waiting" is state held across ticks, never a blocked call: while
//! loading, the machine accumulates spawn-triggered acknowledgements and
//! retires them as the matching spawned events arrive.

use crate::contact::ContactSet;
use crate::timer::Countdown;
use vstd::prelude::*;

verus! {

/// The coarse phase of the level lifecycle.
#[derive(Clone, Copy, PartialEq, Eq, Structural, Debug)]
pub enum StreamingState {
    Disabled,
    Loading,
    Loaded,
    Running,
    Paused,
    LevelEnded,
    Died,
    ShowingPopup,
}

/// One input to the state machine: a mode change, a loader notification,
/// fade time, or a gameplay trigger.
#[derive(Clone, Copy, PartialEq, Eq, Structural, Debug)]
pub enum StreamEvent {
    /// The gameplay mode was entered: begin loading.
    Start,
    /// A sub-area reported that its spawn was triggered.
    SpawnTriggered(u64),
    /// A sub-area finished spawning.
    Spawned(u64),
    /// Fade time elapsed while showing the level.
    FadeTick(u64),
    Pause,
    Resume,
    ShowPopup,
    DismissPopup,
    /// The player reached the level exit.
    EndLevel,
    /// The player's health reached zero.
    Die,
    /// Retry after the end-of-level or death screen.
    Retry,
    /// Leave the gameplay mode altogether.
    ExitToMenu,
}

/// The machine's mathematical state: phase, the set of sub-areas whose
/// spawn is still outstanding, and the fade clock.
#[verifier::ext_equal]
pub struct StreamModel {
    pub state: StreamingState,
    pub pending: Set<u64>,
    pub fade_duration: int,
    pub fade_elapsed: int,
}

/// The initial model: disabled, nothing pending, fade not started.
pub open spec fn stream_init(fade_duration: int) -> StreamModel {
    StreamModel {
        state: StreamingState::Disabled,
        pending: Set::empty(),
        fade_duration,
        fade_elapsed: 0,
    }
}

/// The transition function. Loading collects spawn acknowledgements and
/// completes when the pending set empties; the fade must fully elapse
/// before the simulation runs; pause and popup are siblings off Running;
/// the end and death screens lead back to loading on retry; leaving the
/// mode disables the machine from any state. Events that do not apply in
/// the current state change nothing.
pub open spec fn stream_step(m: StreamModel, e: StreamEvent) -> StreamModel {
    match e {
        StreamEvent::Start => {
            if m.state == StreamingState::Disabled {
                StreamModel { state: StreamingState::Loading, pending: Set::empty(), ..m }
            } else {
                m
            }
        },
        StreamEvent::SpawnTriggered(id) => {
            if m.state == StreamingState::Loading {
                StreamModel { pending: m.pending.insert(id), ..m }
            } else {
                m
            }
        },
        StreamEvent::Spawned(id) => {
            if m.state == StreamingState::Loading {
                let left = m.pending.remove(id);
                if left =~= Set::<u64>::empty() {
                    StreamModel {
                        state: StreamingState::Loaded,
                        pending: left,
                        fade_elapsed: 0,
                        ..m
                    }
                } else {
                    StreamModel { pending: left, ..m }
                }
            } else {
                m
            }
        },
        StreamEvent::FadeTick(d) => {
            if m.state == StreamingState::Loaded {
                let el = if m.fade_elapsed + d >= m.fade_duration {
                    m.fade_duration
                } else {
                    m.fade_elapsed + d
                };
                if el >= m.fade_duration {
                    StreamModel { state: StreamingState::Running, fade_elapsed: el, ..m }
                } else {
                    StreamModel { fade_elapsed: el, ..m }
                }
            } else {
                m
            }
        },
        StreamEvent::Pause => {
            if m.state == StreamingState::Running {
                StreamModel { state: StreamingState::Paused, ..m }
            } else {
                m
            }
        },
        StreamEvent::Resume => {
            if m.state == StreamingState::Paused {
                StreamModel { state: StreamingState::Running, ..m }
            } else {
                m
            }
        },
        StreamEvent::ShowPopup => {
            if m.state == StreamingState::Running {
                StreamModel { state: StreamingState::ShowingPopup, ..m }
            } else {
                m
            }
        },
        StreamEvent::DismissPopup => {
            if m.state == StreamingState::ShowingPopup {
                StreamModel { state: StreamingState::Running, ..m }
            } else {
                m
            }
        },
        StreamEvent::EndLevel => {
            if m.state == StreamingState::Running {
                StreamModel { state: StreamingState::LevelEnded, ..m }
            } else {
                m
            }
        },
        StreamEvent::Die => {
            if m.state == StreamingState::Running {
                StreamModel { state: StreamingState::Died, ..m }
            } else {
                m
            }
        },
        StreamEvent::Retry => {
            if m.state == StreamingState::LevelEnded || m.state == StreamingState::Died {
                StreamModel { state: StreamingState::Loading, pending: Set::empty(), ..m }
            } else {
                m
            }
        },
        StreamEvent::ExitToMenu => {
            StreamModel { state: StreamingState::Disabled, ..m }
        },
    }
}

/// The executable state machine. The pending set is the set of sub-area
/// handles that triggered a spawn and have not reported back yet.
pub struct LevelStreaming {
    state: StreamingState,
    pending: ContactSet,
    fade: Countdown,
}

impl LevelStreaming {
    pub closed spec fn wf(self) -> bool {
        self.pending.wf()
    }

    /// The machine as its mathematical model.
    pub closed spec fn model(self) -> StreamModel {
        StreamModel {
            state: self.state,
            pending: self.pending.set(),
            fade_duration: self.fade.duration as int,
            fade_elapsed: self.fade.elapsed as int,
        }
    }

    /// A fresh machine, disabled, with the fade the level reveal will use.
    pub fn new(fade_duration: u64) -> (m: LevelStreaming)
        ensures
            m.wf(),
            m.model() =~= stream_init(fade_duration as int),
    {
        LevelStreaming {
            state: StreamingState::Disabled,
            pending: ContactSet::new(),
            fade: Countdown::new(fade_duration),
        }
    }

    pub fn state(&self) -> (s: StreamingState)
        ensures
            s == self.model().state,
    {
        self.state
    }

    /// Whether the fixed-step simulation and gameplay systems may run.
    pub fn is_running(&self) -> (r: bool)
        ensures
            r == (self.model().state == StreamingState::Running),
    {
        match self.state {
            StreamingState::Running => true,
            _ => false,
        }
    }

    /// Whether pausable timers — invulnerability and the like — must stand
    /// still: in the pause and popup states.
    pub fn suspends_timers(&self) -> (r: bool)
        ensures
            r == (self.model().state == StreamingState::Paused || self.model().state
                == StreamingState::ShowingPopup),
    {
        match self.state {
            StreamingState::Paused => true,
            StreamingState::ShowingPopup => true,
            _ => false,
        }
    }

    /// Feeds one event through the machine.
    pub fn apply(&mut self, e: StreamEvent)
        requires
            old(self).wf(),
        ensures
            final(self).wf(),
            final(self).model() =~= stream_step(old(self).model(), e),
    {
        match e {
            StreamEvent::Start => {
                if matches!(self.state, StreamingState::Disabled) {
                    self.state = StreamingState::Loading;
                    self.pending = ContactSet::new();
                }
            },
            StreamEvent::SpawnTriggered(id) => {
                if matches!(self.state, StreamingState::Loading) {
                    self.pending.insert(id);
                }
            },
            StreamEvent::Spawned(id) => {
                if matches!(self.state, StreamingState::Loading) {
                    self.pending.remove(id);
                    if self.pending.is_empty() {
                        self.state = StreamingState::Loaded;
                        let duration = self.fade.duration;
                        self.fade = Countdown::new(duration);
                    }
                }
            },
            StreamEvent::FadeTick(d) => {
                if matches!(self.state, StreamingState::Loaded) {
                    self.fade.tick(d);
                    if self.fade.is_finished() {
                        self.state = StreamingState::Running;
                    }
                }
            },
            StreamEvent::Pause => {
                if matches!(self.state, StreamingState::Running) {
                    self.state = StreamingState::Paused;
                }
            },
            StreamEvent::Resume => {
                if matches!(self.state, StreamingState::Paused) {
                    self.state = StreamingState::Running;
                }
            },
            StreamEvent::ShowPopup => {
                if matches!(self.state, StreamingState::Running) {
                    self.state = StreamingState::ShowingPopup;
                }
            },
            StreamEvent::DismissPopup => {
                if matches!(self.state, StreamingState::ShowingPopup) {
                    self.state = StreamingState::Running;
                }
            },
            StreamEvent::EndLevel => {
                if matches!(self.state, StreamingState::Running) {
                    self.state = StreamingState::LevelEnded;
                }
            },
            StreamEvent::Die => {
                if matches!(self.state, StreamingState::Running) {
                    self.state = StreamingState::Died;
                }
            },
            StreamEvent::Retry => {
                if matches!(self.state, StreamingState::LevelEnded)
                    || matches!(self.state, StreamingState::Died) {
                    self.state = StreamingState::Loading;
                    self.pending = ContactSet::new();
                }
            },
            StreamEvent::ExitToMenu => {
                self.state = StreamingState::Disabled;
            },
        }
    }

    /// A live-restart request respawns the level in place; with no level
    /// entity present it is a no-op, never an error.
    pub fn request_restart(&self, level_present: bool) -> (acted: bool)
        ensures
            acted == level_present,
    {
        level_present
    }
}

/// Whether to spawn the level project fresh or respawn the existing one
/// when loading begins.
#[derive(Clone, Copy, PartialEq, Eq, Structural, Debug)]
pub enum LoadAction {
    SpawnNew,
    Respawn,
}

pub fn load_action(project_present: bool) -> (r: LoadAction)
    ensures
        r == if project_present {
            LoadAction::Respawn
        } else {
            LoadAction::SpawnNew
        },
{
    if project_present {
        LoadAction::Respawn
    } else {
        LoadAction::SpawnNew
    }
}

/// World-space bounding box of one loaded level, bounds inclusive.
#[derive(Clone, Copy, PartialEq, Eq, Structural, Debug)]
pub struct LevelBounds {
    pub level: u64,
    pub min_x: i64,
    pub min_y: i64,
    pub max_x: i64,
    pub max_y: i64,
}

impl LevelBounds {
    pub open spec fn contains_point(self, x: int, y: int) -> bool {
        self.min_x <= x <= self.max_x && self.min_y <= y <= self.max_y
    }
}

/// The first level whose box contains the point, if any.
pub open spec fn spec_select(levels: Seq<LevelBounds>, x: int, y: int) -> Option<u64>
    decreases levels.len(),
{
    if levels.len() == 0 {
        None
    } else if levels[0].contains_point(x, y) {
        Some(levels[0].level)
    } else {
        spec_select(levels.drop_first(), x, y)
    }
}

/// Skipping a prefix of non-containing boxes does not change the selection.
proof fn lemma_select_skip(levels: Seq<LevelBounds>, x: int, y: int, i: int)
    requires
        0 <= i <= levels.len(),
        forall|k: int| 0 <= k < i ==> !(#[trigger] levels[k]).contains_point(x, y),
    ensures
        spec_select(levels, x, y) == spec_select(levels.skip(i), x, y),
    decreases i,
{
    if i == 0 {
        assert(levels.skip(0) =~= levels);
    } else {
        lemma_select_skip(levels.drop_first(), x, y, i - 1);
        assert(levels.drop_first().skip(i - 1) =~= levels.skip(i));
    }
}

/// The level-switch test run every tick while the simulation is live: the
/// first loaded level whose world-space box contains the tracked position
/// becomes the selected level; outside every box the selection is kept.
pub fn select_level(levels: &Vec<LevelBounds>, x: i64, y: i64) -> (r: Option<u64>)
    ensures
        r == spec_select(levels@, x as int, y as int),
{
    let mut i: usize = 0;
    while i < levels.len()
        invariant
            i <= levels@.len(),
            forall|k: int| 0 <= k < i ==> !(#[trigger] levels@[k]).contains_point(x as int, y as int),
        decreases levels@.len() - i,
    {
        let b = levels[i];
        if b.min_x <= x && x <= b.max_x && b.min_y <= y && y <= b.max_y {
            proof {
                lemma_select_skip(levels@, x as int, y as int, i as int);
                assert(levels@.skip(i as int)[0] == levels@[i as int]);
            }
            return Some(b.level);
        }
        i = i + 1;
    }
    proof {
        lemma_select_skip(levels@, x as int, y as int, levels@.len() as int);
        assert(levels@.skip(levels@.len() as int) =~= Seq::<LevelBounds>::empty());
    }
    None
}

/// The level that owns a cell entity, under the given ownership table.
pub open spec fn spec_owner_of(owners: Seq<(u64, u64)>, cell: u64) -> Option<u64>
    decreases owners.len(),
{
    if owners.len() == 0 {
        None
    } else if owners[0].0 == cell {
        Some(owners[0].1)
    } else {
        spec_owner_of(owners.drop_first(), cell)
    }
}

/// Skipping non-matching table rows does not change the owner found.
proof fn lemma_owner_skip(owners: Seq<(u64, u64)>, cell: u64, i: int)
    requires
        0 <= i <= owners.len(),
        forall|k: int| 0 <= k < i ==> (#[trigger] owners[k]).0 != cell,
    ensures
        spec_owner_of(owners, cell) == spec_owner_of(owners.skip(i), cell),
    decreases i,
{
    if i == 0 {
        assert(owners.skip(0) =~= owners);
    } else {
        lemma_owner_skip(owners.drop_first(), cell, i - 1);
        assert(owners.drop_first().skip(i - 1) =~= owners.skip(i));
    }
}

/// Resolves which level a tile cell belongs to, through the ownership table
/// built once per level load — the pure replacement for walking a live
/// scene-graph parent chain at query time.
pub fn cell_to_level(owners: &Vec<(u64, u64)>, cell: u64) -> (r: Option<u64>)
    ensures
        r == spec_owner_of(owners@, cell),
{
    let mut i: usize = 0;
    while i < owners.len()
        invariant
            i <= owners@.len(),
            forall|k: int| 0 <= k < i ==> (#[trigger] owners@[k]).0 != cell,
        decreases owners@.len() - i,
    {
        if owners[i].0 == cell {
            proof {
                lemma_owner_skip(owners@, cell, i as int);
                assert(owners@.skip(i as int)[0] == owners@[i as int]);
            }
            return Some(owners[i].1);
        }
        i = i + 1;
    }
    proof {
        lemma_owner_skip(owners@, cell, owners@.len() as int);
        assert(owners@.skip(owners@.len() as int) =~= Seq::<(u64, u64)>::empty());
    }
    None
}

/// Law: the streaming sequence. From `Disabled`, starting a load and
/// acknowledging three triggered sub-areas, the machine leaves `Loading`
/// only when the last of the three reports spawned — not earlier — and
/// then reaches `Running` only once the fade has fully elapsed.
pub proof fn lemma_streaming_sequence(
    a: u64,
    b: u64,
    c: u64,
    fade_duration: int,
    d1: u64,
    d2: u64,
)
    requires
        a != b && b != c && a != c,
        0 < d1 < fade_duration,
        d1 + d2 >= fade_duration,
    ensures
        ({
            let m0 = stream_init(fade_duration);
            let m1 = stream_step(m0, StreamEvent::Start);
            let m2 = stream_step(m1, StreamEvent::SpawnTriggered(a));
            let m3 = stream_step(m2, StreamEvent::SpawnTriggered(b));
            let m4 = stream_step(m3, StreamEvent::SpawnTriggered(c));
            let m5 = stream_step(m4, StreamEvent::Spawned(a));
            let m6 = stream_step(m5, StreamEvent::Spawned(b));
            let m7 = stream_step(m6, StreamEvent::Spawned(c));
            let m8 = stream_step(m7, StreamEvent::FadeTick(d1));
            let m9 = stream_step(m8, StreamEvent::FadeTick(d2));
            &&& m1.state == StreamingState::Loading
            &&& m5.state == StreamingState::Loading
            &&& m6.state == StreamingState::Loading
            &&& m7.state == StreamingState::Loaded
            &&& m8.state == StreamingState::Loaded
            &&& m9.state == StreamingState::Running
        }),
{
    let m0 = stream_init(fade_duration);
    let m1 = stream_step(m0, StreamEvent::Start);
    let m2 = stream_step(m1, StreamEvent::SpawnTriggered(a));
    let m3 = stream_step(m2, StreamEvent::SpawnTriggered(b));
    let m4 = stream_step(m3, StreamEvent::SpawnTriggered(c));
    let m5 = stream_step(m4, StreamEvent::Spawned(a));
    let m6 = stream_step(m5, StreamEvent::Spawned(b));
    assert(m4.pending =~= Set::<u64>::empty().insert(a).insert(b).insert(c));
    assert(m4.pending.remove(a).contains(c));
    assert(!(m4.pending.remove(a) =~= Set::<u64>::empty()));
    assert(m5.pending.remove(b).contains(c));
    assert(!(m5.pending.remove(b) =~= Set::<u64>::empty()));
    assert(m6.pending =~= Set::<u64>::empty().insert(c));
    assert(m6.pending.remove(c) =~= Set::<u64>::empty());
}

} // verus!
