//! Contact tracking: turns the physics engine's pairwise collision
//! start/stop notifications into durable per-entity state — which solid
//! bodies a ground sensor touches, and which climbable markers a climber
//! overlaps. Each set is mutated only by matching start (insert) and stop
//! (remove) events; it is never rebuilt mid-session.

use vstd::prelude::*;

verus! {

/// One collision notification from the physics engine: the pair started or
/// stopped overlapping. Entities are identified by stable handles.
#[derive(Clone, Copy, PartialEq, Eq, Structural, Debug)]
pub enum ContactEvent {
    Started(u64, u64),
    Stopped(u64, u64),
}

/// The pair of a start event, or nothing: stop events and any later event
/// kinds are filtered out.
pub fn start_event_filter(event: &ContactEvent) -> (r: Option<(u64, u64)>)
    ensures
        r == match *event {
            ContactEvent::Started(a, b) => Some((a, b)),
            ContactEvent::Stopped(_, _) => None::<(u64, u64)>,
        },
{
    match event {
        ContactEvent::Started(a, b) => Some((*a, *b)),
        ContactEvent::Stopped(_, _) => None,
    }
}

/// Whether `v` is one of the two entities of a pair.
pub fn eq_either(v: u64, a: u64, b: u64) -> (r: bool)
    ensures
        r == (v == a || v == b),
{
    v == a || v == b
}

/// Whether an id table lists `v`.
pub fn table_contains(table: &Vec<u64>, v: u64) -> (r: bool)
    ensures
        r == table@.contains(v),
{
    let mut i: usize = 0;
    while i < table.len()
        invariant
            i <= table@.len(),
            forall|k: int| 0 <= k < i ==> table@[k] != v,
        decreases table@.len() - i,
    {
        if table[i] == v {
            proof {
                assert(table@[i as int] == v);
            }
            return true;
        }
        i = i + 1;
    }
    false
}

/// Resolves which member of a collision pair a table describes: the first
/// listed member together with the other entity, checking `a` before `b`,
/// or nothing when the table lists neither.
pub fn match_either(a: u64, b: u64, table: &Vec<u64>) -> (r: Option<(u64, u64)>)
    ensures
        r == if table@.contains(a) {
            Some((a, b))
        } else if table@.contains(b) {
            Some((b, a))
        } else {
            None::<(u64, u64)>
        },
{
    if table_contains(table, a) {
        Some((a, b))
    } else if table_contains(table, b) {
        Some((b, a))
    } else {
        None
    }
}

/// The entities an id sequence lists, as a set.
pub open spec fn id_set(ids: Seq<u64>) -> Set<u64> {
    Set::new(|id: u64| ids.contains(id))
}

/// A set of entity ids currently overlapping one sensor, mutated only by
/// insertions on start events and removals on stop events.
pub struct ContactSet {
    ids: Vec<u64>,
}

impl ContactSet {
    /// The backing list holds each id at most once.
    pub closed spec fn wf(self) -> bool {
        forall|i: int, j: int|
            0 <= i < self.ids@.len() && 0 <= j < self.ids@.len() && i != j ==> self.ids@[i]
                != self.ids@[j]
    }

    /// The ids as a mathematical set.
    pub closed spec fn set(self) -> Set<u64> {
        id_set(self.ids@)
    }

    /// How many entities overlap the sensor.
    pub closed spec fn spec_len(self) -> nat {
        self.ids@.len()
    }

    pub fn new() -> (s: ContactSet)
        ensures
            s.wf(),
            s.set() =~= Set::<u64>::empty(),
    {
        ContactSet { ids: Vec::new() }
    }

    pub fn contains(&self, id: u64) -> (r: bool)
        ensures
            r == self.set().contains(id),
    {
        table_contains(&self.ids, id)
    }

    /// Whether no entity overlaps the sensor.
    pub fn is_empty(&self) -> (r: bool)
        requires
            self.wf(),
        ensures
            r == (self.set() =~= Set::<u64>::empty()),
    {
        let r = self.ids.is_empty();
        proof {
            if self.ids@.len() > 0 {
                assert(self.set().contains(self.ids@[0]));
            }
        }
        r
    }

    /// How many entities overlap the sensor.
    pub fn len(&self) -> (n: usize)
        requires
            self.wf(),
        ensures
            n == self.spec_len(),
            n == 0 <==> self.set() =~= Set::<u64>::empty(),
    {
        let n = self.ids.len();
        proof {
            if self.ids@.len() > 0 {
                assert(self.set().contains(self.ids@[0]));
            }
        }
        n
    }

    /// Records that `id` started overlapping; inserting a present id is a
    /// no-op, as for the underlying set.
    pub fn insert(&mut self, id: u64)
        requires
            old(self).wf(),
        ensures
            final(self).wf(),
            final(self).set() =~= old(self).set().insert(id),
    {
        if !table_contains(&self.ids, id) {
            let ghost prev = self.ids@;
            self.ids.push(id);
            proof {
                assert forall|x: u64| self.set().contains(x) implies old(self).set().contains(x)
                    || x == id by {
                    let k = choose|k: int| 0 <= k < self.ids@.len() && self.ids@[k] == x;
                    if k < prev.len() {
                        assert(prev[k] == x);
                    }
                }
                assert(self.ids@[prev.len() as int] == id);
                assert forall|x: u64| old(self).set().contains(x) implies self.set().contains(
                    x,
                ) by {
                    let k = choose|k: int| 0 <= k < prev.len() && prev[k] == x;
                    assert(self.ids@[k] == x);
                }
            }
        } else {
            proof {
                assert(self.set().contains(id));
            }
        }
    }

    /// Records that `id` stopped overlapping; removing an absent id is a
    /// no-op.
    pub fn remove(&mut self, id: u64)
        requires
            old(self).wf(),
        ensures
            final(self).wf(),
            final(self).set() =~= old(self).set().remove(id),
    {
        let ghost prev = self.ids@;
        let mut i: usize = 0;
        while i < self.ids.len()
            invariant
                self.ids@ == prev,
                old(self).ids@ == prev,
                i <= prev.len(),
                forall|k: int| 0 <= k < i ==> prev[k] != id,
                forall|k1: int, k2: int|
                    0 <= k1 < prev.len() && 0 <= k2 < prev.len() && k1 != k2 ==> prev[k1]
                        != prev[k2],
            decreases prev.len() - i,
        {
            if self.ids[i] == id {
                self.ids.swap_remove(i);
                proof {
                    let cur = self.ids@;
                    assert(prev[i as int] == id);
                    assert forall|x: u64| cur.contains(x) implies prev.contains(x) && x != id by {
                        let k = choose|k: int| 0 <= k < cur.len() && cur[k] == x;
                        if k == i {
                            assert(prev[prev.len() - 1] == x);
                        } else {
                            assert(prev[k] == x);
                        }
                        assert(x != id) by {
                            if k == i {
                                assert(prev[prev.len() - 1] != id || prev.len() - 1 == i);
                            }
                        }
                    }
                    assert forall|x: u64| prev.contains(x) && x != id implies cur.contains(x) by {
                        let k = choose|k: int| 0 <= k < prev.len() && prev[k] == x;
                        if k == i {
                            assert(false);
                        } else if k == prev.len() - 1 {
                            if i < prev.len() - 1 {
                                assert(cur[i as int] == x);
                            }
                        } else {
                            assert(cur[k] == x);
                        }
                    }
                    assert forall|k1: int, k2: int|
                        0 <= k1 < cur.len() && 0 <= k2 < cur.len() && k1 != k2 implies cur[k1]
                        != cur[k2] by {
                        let ghost m = prev.len() - 1;
                        assert(cur[k1] == if k1 == i {
                            prev[m]
                        } else {
                            prev[k1]
                        });
                        assert(cur[k2] == if k2 == i {
                            prev[m]
                        } else {
                            prev[k2]
                        });
                    }
                    assert forall|x: u64|
                        self.set().contains(x) == old(self).set().remove(id).contains(x) by {
                        assert(self.set().contains(x) == cur.contains(x));
                        assert(old(self).set().contains(x) == prev.contains(x));
                    }
                    assert(self.set() =~= old(self).set().remove(id));
                }
                return ;
            }
            i = i + 1;
        }
        proof {
            assert(!prev.contains(id));
            assert(self.set() =~= old(self).set().remove(id));
        }
    }
}

/// A thin sensor shape at a character's lower edge, together with the set of
/// solid bodies currently touching it. `ground_detection_entity` is the
/// character the sensor reports to.
pub struct GroundSensor {
    pub ground_detection_entity: u64,
    pub intersecting_ground_entities: ContactSet,
}

/// The ground flag a character's movement reads, recomputed only when the
/// owning sensor's contact set changed.
#[derive(Clone, Copy, PartialEq, Eq, Structural, Debug)]
pub struct GroundDetection {
    pub on_ground: bool,
}

/// Effect of one collision event on the contact set of the ground sensor
/// owned by entity `sensor`: a start whose first member is a solid body and
/// whose second is this sensor inserts the body; only when the first member
/// is not solid is the mirrored pairing considered. Stops remove
/// symmetrically.
pub open spec fn ground_step(
    contacts: Set<u64>,
    sensor: u64,
    collidables: Set<u64>,
    e: ContactEvent,
) -> Set<u64> {
    match e {
        ContactEvent::Started(a, b) => {
            if collidables.contains(a) {
                if b == sensor {
                    contacts.insert(a)
                } else {
                    contacts
                }
            } else if collidables.contains(b) && a == sensor {
                contacts.insert(b)
            } else {
                contacts
            }
        },
        ContactEvent::Stopped(a, b) => {
            if collidables.contains(a) {
                if b == sensor {
                    contacts.remove(a)
                } else {
                    contacts
                }
            } else if collidables.contains(b) && a == sensor {
                contacts.remove(b)
            } else {
                contacts
            }
        },
    }
}

/// The contact set after draining a tick's events in emission order.
pub open spec fn ground_fold(
    contacts: Set<u64>,
    sensor: u64,
    collidables: Set<u64>,
    events: Seq<ContactEvent>,
) -> Set<u64>
    decreases events.len(),
{
    if events.len() == 0 {
        contacts
    } else {
        ground_fold(
            ground_step(contacts, sensor, collidables, events[0]),
            sensor,
            collidables,
            events.drop_first(),
        )
    }
}

/// Folding one more event at the end applies one more step.
proof fn lemma_ground_fold_snoc(
    contacts: Set<u64>,
    sensor: u64,
    collidables: Set<u64>,
    events: Seq<ContactEvent>,
    e: ContactEvent,
)
    ensures
        ground_fold(contacts, sensor, collidables, events.push(e)) == ground_step(
            ground_fold(contacts, sensor, collidables, events),
            sensor,
            collidables,
            e,
        ),
    decreases events.len(),
{
    reveal_with_fuel(ground_fold, 3);
    if events.len() == 0 {
        assert(events.push(e).drop_first() =~= events);
    } else {
        assert(events.push(e).drop_first() =~= events.drop_first().push(e));
        lemma_ground_fold_snoc(
            ground_step(contacts, sensor, collidables, events[0]),
            sensor,
            collidables,
            events.drop_first(),
            e,
        );
    }
}

impl GroundSensor {
    pub open spec fn wf(self) -> bool {
        self.intersecting_ground_entities.wf()
    }

    pub open spec fn contacts(self) -> Set<u64> {
        self.intersecting_ground_entities.set()
    }

    /// A fresh sensor for one character, touching nothing.
    pub fn new(ground_detection_entity: u64) -> (s: GroundSensor)
        ensures
            s.wf(),
            s.ground_detection_entity == ground_detection_entity,
            s.contacts() =~= Set::<u64>::empty(),
    {
        GroundSensor { ground_detection_entity, intersecting_ground_entities: ContactSet::new() }
    }

    /// Applies one collision event to this sensor's contact set. The sensor
    /// is addressed by the entity that owns it, `collidables` lists the
    /// solid non-sensor bodies.
    pub fn process_event(&mut self, sensor_entity: u64, e: &ContactEvent, collidables: &Vec<u64>)
        requires
            old(self).wf(),
        ensures
            final(self).wf(),
            final(self).ground_detection_entity == old(self).ground_detection_entity,
            final(self).contacts() =~= ground_step(
                old(self).contacts(),
                sensor_entity,
                id_set(collidables@),
                *e,
            ),
    {
        match *e {
            ContactEvent::Started(a, b) => {
                if table_contains(collidables, a) {
                    if b == sensor_entity {
                        self.intersecting_ground_entities.insert(a);
                    }
                } else if table_contains(collidables, b) && a == sensor_entity {
                    self.intersecting_ground_entities.insert(b);
                }
            },
            ContactEvent::Stopped(a, b) => {
                if table_contains(collidables, a) {
                    if b == sensor_entity {
                        self.intersecting_ground_entities.remove(a);
                    }
                } else if table_contains(collidables, b) && a == sensor_entity {
                    self.intersecting_ground_entities.remove(b);
                }
            },
        }
    }

    /// Drains one tick's events, in emission order, into this sensor's
    /// contact set.
    pub fn process_events(
        &mut self,
        sensor_entity: u64,
        events: &Vec<ContactEvent>,
        collidables: &Vec<u64>,
    )
        requires
            old(self).wf(),
        ensures
            final(self).wf(),
            final(self).ground_detection_entity == old(self).ground_detection_entity,
            final(self).contacts() =~= ground_fold(
                old(self).contacts(),
                sensor_entity,
                id_set(collidables@),
                events@,
            ),
    {
        let mut i: usize = 0;
        while i < events.len()
            invariant
                i <= events@.len(),
                self.wf(),
                self.ground_detection_entity == old(self).ground_detection_entity,
                self.contacts() =~= ground_fold(
                    old(self).contacts(),
                    sensor_entity,
                    id_set(collidables@),
                    events@.take(i as int),
                ),
            decreases events@.len() - i,
        {
            self.process_event(sensor_entity, &events[i], collidables);
            proof {
                assert(events@.take(i + 1).drop_last() =~= events@.take(i as int));
                assert(events@.take(i + 1) =~= events@.take(i as int).push(events@[i as int]));
                lemma_ground_fold_snoc(
                    old(self).contacts(),
                    sensor_entity,
                    id_set(collidables@),
                    events@.take(i as int),
                    events@[i as int],
                );
            }
            i = i + 1;
        }
        proof {
            assert(events@.take(events@.len() as int) =~= events@);
        }
    }
}

/// The collision-detection pass for ground contact: drains the tick's
/// events into every ground sensor. A sensor reacts only to events that
/// pair a solid body with the entity owning it, so each sensor's final set
/// is the fold of the whole event stream.
pub fn ground_detection(
    sensors: Vec<(u64, GroundSensor)>,
    events: &Vec<ContactEvent>,
    collidables: &Vec<u64>,
) -> (out: Vec<(u64, GroundSensor)>)
    requires
        forall|i: int| 0 <= i < sensors@.len() ==> (#[trigger] sensors@[i]).1.wf(),
    ensures
        out@.len() == sensors@.len(),
        forall|i: int|
            0 <= i < out@.len() ==> {
                &&& (#[trigger] out@[i]).0 == sensors@[i].0
                &&& out@[i].1.wf()
                &&& out@[i].1.ground_detection_entity == sensors@[i].1.ground_detection_entity
                &&& out@[i].1.contacts() =~= ground_fold(
                    sensors@[i].1.contacts(),
                    sensors@[i].0,
                    id_set(collidables@),
                    events@,
                )
            },
{
    let ghost orig = sensors@;
    let mut rest = sensors;
    let mut out: Vec<(u64, GroundSensor)> = Vec::new();
    while rest.len() > 0
        invariant
            out@.len() + rest@.len() == orig.len(),
            rest@ =~= orig.subrange(out@.len() as int, orig.len() as int),
            forall|i: int| 0 <= i < orig.len() ==> (#[trigger] orig[i]).1.wf(),
            forall|i: int|
                0 <= i < out@.len() ==> {
                    &&& (#[trigger] out@[i]).0 == orig[i].0
                    &&& out@[i].1.wf()
                    &&& out@[i].1.ground_detection_entity == orig[i].1.ground_detection_entity
                    &&& out@[i].1.contacts() =~= ground_fold(
                        orig[i].1.contacts(),
                        orig[i].0,
                        id_set(collidables@),
                        events@,
                    )
                },
        decreases rest@.len(),
    {
        proof {
            assert(rest@[0] == orig[out@.len() as int]);
        }
        let (entity, mut sensor) = rest.remove(0);
        sensor.process_events(entity, events, collidables);
        out.push((entity, sensor));
    }
    out
}

/// Refreshes a character's ground flag from its sensor: on the ground
/// exactly while the sensor touches at least one solid body. Called only
/// when the sensor's set changed this tick, so the flag is edge-triggered
/// rather than polled.
pub fn update_on_ground(detection: &mut GroundDetection, sensor: &GroundSensor)
    requires
        sensor.wf(),
    ensures
        final(detection).on_ground == !sensor.contacts().is_empty(),
{
    let empty = sensor.intersecting_ground_entities.is_empty();
    proof {
        if sensor.contacts() =~= Set::<u64>::empty() {
            assert(sensor.contacts().is_empty());
        } else {
            assert(!sensor.contacts().is_empty());
        }
    }
    detection.on_ground = !empty;
}

/// A character stops counting as jumping the moment it stands on ground.
pub fn update_jumping(jumping: &mut Jumping, detection: &GroundDetection)
    ensures
        final(jumping).0 == (if detection.on_ground {
            false
        } else {
            old(jumping).0
        }),
{
    if detection.on_ground {
        jumping.0 = false;
    }
}

/// Whether the character is currently in a jump.
#[derive(Clone, Copy, PartialEq, Eq, Structural, Debug)]
pub struct Jumping(pub bool);

/// Whether the character's position lies in a water cell.
#[derive(Clone, Copy, PartialEq, Eq, Structural, Debug)]
pub struct InWater(pub bool);

/// A character that can climb: the geometric range of climbable markers it
/// currently overlaps, and the input-gated mode flag. Range is maintained
/// purely by collision events; `climbing` turns on only by vertical input
/// while the range is non-empty, and off the instant the range empties.
pub struct Climber {
    pub climbing: bool,
    pub intersecting_climbables: ContactSet,
}

/// Effect of one collision event on a climber's range set: either side of a
/// start may pair this climber with a climbable marker, and both sides are
/// checked; stops remove symmetrically.
pub open spec fn climb_step(
    range: Set<u64>,
    climber: u64,
    climbables: Set<u64>,
    e: ContactEvent,
) -> Set<u64> {
    match e {
        ContactEvent::Started(a, b) => {
            let first = if a == climber && climbables.contains(b) {
                range.insert(b)
            } else {
                range
            };
            if b == climber && climbables.contains(a) {
                first.insert(a)
            } else {
                first
            }
        },
        ContactEvent::Stopped(a, b) => {
            let first = if a == climber && climbables.contains(b) {
                range.remove(b)
            } else {
                range
            };
            if b == climber && climbables.contains(a) {
                first.remove(a)
            } else {
                first
            }
        },
    }
}

/// The range set after draining a tick's events in emission order.
pub open spec fn climb_fold(
    range: Set<u64>,
    climber: u64,
    climbables: Set<u64>,
    events: Seq<ContactEvent>,
) -> Set<u64>
    decreases events.len(),
{
    if events.len() == 0 {
        range
    } else {
        climb_fold(
            climb_step(range, climber, climbables, events[0]),
            climber,
            climbables,
            events.drop_first(),
        )
    }
}

/// Folding one more event at the end applies one more step.
proof fn lemma_climb_fold_snoc(
    range: Set<u64>,
    climber: u64,
    climbables: Set<u64>,
    events: Seq<ContactEvent>,
    e: ContactEvent,
)
    ensures
        climb_fold(range, climber, climbables, events.push(e)) == climb_step(
            climb_fold(range, climber, climbables, events),
            climber,
            climbables,
            e,
        ),
    decreases events.len(),
{
    reveal_with_fuel(climb_fold, 3);
    if events.len() == 0 {
        assert(events.push(e).drop_first() =~= events);
    } else {
        assert(events.push(e).drop_first() =~= events.drop_first().push(e));
        lemma_climb_fold_snoc(
            climb_step(range, climber, climbables, events[0]),
            climber,
            climbables,
            events.drop_first(),
            e,
        );
    }
}

impl Climber {
    pub open spec fn wf(self) -> bool {
        self.intersecting_climbables.wf()
    }

    pub open spec fn range(self) -> Set<u64> {
        self.intersecting_climbables.set()
    }

    /// A fresh climber: not climbing, overlapping nothing.
    pub fn new() -> (c: Climber)
        ensures
            c.wf(),
            !c.climbing,
            c.range() =~= Set::<u64>::empty(),
    {
        Climber { climbing: false, intersecting_climbables: ContactSet::new() }
    }

    /// Applies one collision event to this climber's range; the mode flag
    /// is untouched — only input changes it.
    pub fn process_event(&mut self, climber_entity: u64, e: &ContactEvent, climbables: &Vec<u64>)
        requires
            old(self).wf(),
        ensures
            final(self).wf(),
            final(self).climbing == old(self).climbing,
            final(self).range() =~= climb_step(
                old(self).range(),
                climber_entity,
                id_set(climbables@),
                *e,
            ),
    {
        match *e {
            ContactEvent::Started(a, b) => {
                if a == climber_entity && table_contains(climbables, b) {
                    self.intersecting_climbables.insert(b);
                }
                if b == climber_entity && table_contains(climbables, a) {
                    self.intersecting_climbables.insert(a);
                }
            },
            ContactEvent::Stopped(a, b) => {
                if a == climber_entity && table_contains(climbables, b) {
                    self.intersecting_climbables.remove(b);
                }
                if b == climber_entity && table_contains(climbables, a) {
                    self.intersecting_climbables.remove(a);
                }
            },
        }
    }

    /// Drains one tick's events, in emission order, into this climber's
    /// range.
    pub fn process_events(
        &mut self,
        climber_entity: u64,
        events: &Vec<ContactEvent>,
        climbables: &Vec<u64>,
    )
        requires
            old(self).wf(),
        ensures
            final(self).wf(),
            final(self).climbing == old(self).climbing,
            final(self).range() =~= climb_fold(
                old(self).range(),
                climber_entity,
                id_set(climbables@),
                events@,
            ),
    {
        let mut i: usize = 0;
        while i < events.len()
            invariant
                i <= events@.len(),
                self.wf(),
                self.climbing == old(self).climbing,
                self.range() =~= climb_fold(
                    old(self).range(),
                    climber_entity,
                    id_set(climbables@),
                    events@.take(i as int),
                ),
            decreases events@.len() - i,
        {
            self.process_event(climber_entity, &events[i], climbables);
            proof {
                assert(events@.take(i + 1) =~= events@.take(i as int).push(events@[i as int]));
                lemma_climb_fold_snoc(
                    old(self).range(),
                    climber_entity,
                    id_set(climbables@),
                    events@.take(i as int),
                    events@[i as int],
                );
            }
            i = i + 1;
        }
        proof {
            assert(events@.take(events@.len() as int) =~= events@);
        }
    }

    /// The input side of climbing: the mode clears the instant the range is
    /// empty; while the range holds a climbable, vertical input switches it
    /// on, and without input it stays as it was.
    pub fn update_climbing(&mut self, vertical_input: bool)
        requires
            old(self).wf(),
        ensures
            final(self).wf(),
            final(self).range() == old(self).range(),
            final(self).climbing == (if old(self).range().is_empty() {
                false
            } else if vertical_input {
                true
            } else {
                old(self).climbing
            }),
    {
        if self.intersecting_climbables.is_empty() {
            self.climbing = false;
            proof {
                assert(self.range().is_empty());
            }
        } else if vertical_input {
            self.climbing = true;
            proof {
                assert(!self.range().is_empty());
            }
        } else {
            proof {
                assert(!self.range().is_empty());
            }
        }
    }
}

/// The collision-detection pass for climb range: drains the tick's events
/// into every climber, keyed by the climber's entity.
pub fn detect_climb_range(
    climbers: Vec<(u64, Climber)>,
    events: &Vec<ContactEvent>,
    climbables: &Vec<u64>,
) -> (out: Vec<(u64, Climber)>)
    requires
        forall|i: int| 0 <= i < climbers@.len() ==> (#[trigger] climbers@[i]).1.wf(),
    ensures
        out@.len() == climbers@.len(),
        forall|i: int|
            0 <= i < out@.len() ==> {
                &&& (#[trigger] out@[i]).0 == climbers@[i].0
                &&& out@[i].1.wf()
                &&& out@[i].1.climbing == climbers@[i].1.climbing
                &&& out@[i].1.range() =~= climb_fold(
                    climbers@[i].1.range(),
                    climbers@[i].0,
                    id_set(climbables@),
                    events@,
                )
            },
{
    let ghost orig = climbers@;
    let mut rest = climbers;
    let mut out: Vec<(u64, Climber)> = Vec::new();
    while rest.len() > 0
        invariant
            out@.len() + rest@.len() == orig.len(),
            rest@ =~= orig.subrange(out@.len() as int, orig.len() as int),
            forall|i: int| 0 <= i < orig.len() ==> (#[trigger] orig[i]).1.wf(),
            forall|i: int|
                0 <= i < out@.len() ==> {
                    &&& (#[trigger] out@[i]).0 == orig[i].0
                    &&& out@[i].1.wf()
                    &&& out@[i].1.climbing == orig[i].1.climbing
                    &&& out@[i].1.range() =~= climb_fold(
                        orig[i].1.range(),
                        orig[i].0,
                        id_set(climbables@),
                        events@,
                    )
                },
        decreases rest@.len(),
    {
        proof {
            assert(rest@[0] == orig[out@.len() as int]);
        }
        let (entity, mut climber) = rest.remove(0);
        climber.process_events(entity, events, climbables);
        out.push((entity, climber));
    }
    out
}

/// Law: ground contact is edge-triggered on the net effect of a tick's
/// events. A start immediately followed by the matching stop leaves the
/// contact set empty, so the ground flag derived from it stays false; two
/// overlapping starts from different bodies keep the set non-empty — the
/// flag stays true — until both stops have arrived.
pub proof fn lemma_ground_contact_edge_trigger(
    sensor: u64,
    collidables: Set<u64>,
    a: u64,
    b: u64,
)
    requires
        collidables.contains(a),
        collidables.contains(b),
        a != b,
    ensures
        ground_fold(
            Set::<u64>::empty(),
            sensor,
            collidables,
            seq![ContactEvent::Started(a, sensor), ContactEvent::Stopped(a, sensor)],
        ).is_empty(),
        !ground_fold(
            Set::<u64>::empty(),
            sensor,
            collidables,
            seq![
                ContactEvent::Started(a, sensor),
                ContactEvent::Started(b, sensor),
                ContactEvent::Stopped(a, sensor),
            ],
        ).is_empty(),
        ground_fold(
            Set::<u64>::empty(),
            sensor,
            collidables,
            seq![
                ContactEvent::Started(a, sensor),
                ContactEvent::Started(b, sensor),
                ContactEvent::Stopped(a, sensor),
                ContactEvent::Stopped(b, sensor),
            ],
        ).is_empty(),
{
    let e = Set::<u64>::empty();
    let s1 = seq![ContactEvent::Started(a, sensor), ContactEvent::Stopped(a, sensor)];
    reveal_with_fuel(ground_fold, 5);
    assert(s1.drop_first() =~= seq![ContactEvent::Stopped(a, sensor)]);
    assert(s1.drop_first().drop_first() =~= Seq::<ContactEvent>::empty());
    assert(ground_fold(e, sensor, collidables, s1) =~= e.insert(a).remove(a));
    assert(e.insert(a).remove(a) =~= e);

    let s2 = seq![
        ContactEvent::Started(a, sensor),
        ContactEvent::Started(b, sensor),
        ContactEvent::Stopped(a, sensor),
    ];
    assert(s2.drop_first() =~= seq![
        ContactEvent::Started(b, sensor),
        ContactEvent::Stopped(a, sensor),
    ]);
    assert(s2.drop_first().drop_first() =~= seq![ContactEvent::Stopped(a, sensor)]);
    assert(s2.drop_first().drop_first().drop_first() =~= Seq::<ContactEvent>::empty());
    assert(ground_fold(e, sensor, collidables, s2) =~= e.insert(a).insert(b).remove(a));
    assert(ground_fold(e, sensor, collidables, s2).contains(b));

    let s3 = s2.push(ContactEvent::Stopped(b, sensor));
    lemma_ground_fold_snoc(e, sensor, collidables, s2, ContactEvent::Stopped(b, sensor));
    assert(ground_fold(e, sensor, collidables, s3) =~= e.insert(a).insert(b).remove(a).remove(b));
    assert(e.insert(a).insert(b).remove(a).remove(b) =~= e);
}

} // verus!
