//! The reconciliation loop: once per tick, turn the store's facts and
//! the schedule into at most one class of change, in strict priority
//! order — global shutoff, cool-down suppression, zone edges, heater
//! engagement, or nothing. The loop holds no memory across ticks:
//! everything is re-derived from the reading store.
use vstd::prelude::*;

use crate::config::{Config, ControlNode, ControlNodes, Settings};
use crate::deciders::{
    can_turn_zones_off_spec,
    heater_should_be_on_spec,
    value_to_change_spec,
    zone_should_be_on_spec,
    HeaterDecider,
    ZoneStateDecider,
};
use crate::pin::{LocalInstant, PinValue, Temperature};
use crate::repository::{
    last_changed_spec,
    lemma_last_changed_wf,
    temp_count,
    temp_sum,
    PinRecord,
    PinStateRepository,
    TempRecord,
};
use crate::zone::{Zone, Zones};

verus! {

/// One commanded value for one pin.
#[derive(Clone, Copy, Debug, PartialEq, Eq, Structural)]
pub struct PinChange {
    pub pin: u8,
    pub value: PinValue,
}

/// The commands for the pins of one named node.
#[derive(Clone, Debug, PartialEq)]
pub struct NodeChanges {
    pub name: String,
    pub changes: Vec<PinChange>,
}

/// A change-set: for each node with work to do, the values its pins
/// must be commanded to.
pub type PinChanges = Vec<NodeChanges>;

/// The mathematical shape of a change-set: node names with their
/// commands, in the order the nodes are listed.
pub open spec fn pin_changes_matches(v: Seq<NodeChanges>, m: Seq<(Seq<char>, Seq<PinChange>)>) -> bool {
    &&& v.len() == m.len()
    &&& forall|i: int|
        0 <= i < v.len() ==> (#[trigger] v[i]).name@ == m[i].0 && v[i].changes@ == m[i].1
}

/// The average the loop reads as a zone's current temperature: the
/// mean over the zone's whole recorded history, bounded by nothing but
/// the log itself.
pub open spec fn zone_average(temps: Seq<TempRecord>, zone: Zone) -> Temperature {
    Temperature {
        millis: (temp_sum(temps, zone.name@, zone.sensor_pin, 0) / (temp_count(
            temps,
            zone.name@,
            zone.sensor_pin,
            0,
        ) as int)) as i32,
    }
}

/// Whether the loop has a temperature fact for a zone at all.
pub open spec fn has_average(temps: Seq<TempRecord>, zone: Zone) -> bool {
    temp_count(temps, zone.name@, zone.sensor_pin, 0) > 0
}

/// The command one zone contributes to a tick, if any: nothing without
/// a last known state, nothing without a temperature fact, else
/// whatever the edge law emits.
pub open spec fn zone_change_entry(
    pins: Seq<PinRecord>,
    temps: Seq<TempRecord>,
    cfg: Config,
    node_name: Seq<char>,
    zone: Zone,
    now: LocalInstant,
) -> Option<PinChange> {
    match last_changed_spec(pins, node_name, zone.control_pin) {
        None => None,
        Some(ls) => if !has_average(temps, zone) {
            None
        } else {
            match value_to_change_spec(
                cfg,
                ls.spec_is_on(),
                zone,
                zone_average(temps, zone),
                now.tod,
            ) {
                None => None,
                Some(v) => Some(PinChange { pin: zone.control_pin, value: v }),
            }
        },
    }
}

/// An optional command as a sequence of zero or one commands.
pub open spec fn opt_change_seq(o: Option<PinChange>) -> Seq<PinChange> {
    match o {
        None => Seq::empty(),
        Some(c) => seq![c],
    }
}

/// The commands a node's zones contribute to a tick, in zone order.
/// Each zone is expected to drive its own actuator: with two zones of
/// one node misconfigured onto the same control pin, each zone's
/// command is listed, in zone order.
pub open spec fn zone_changes_spec(
    pins: Seq<PinRecord>,
    temps: Seq<TempRecord>,
    cfg: Config,
    node_name: Seq<char>,
    zones: Seq<Zone>,
    now: LocalInstant,
) -> Seq<PinChange>
    decreases zones.len(),
{
    if zones.len() == 0 {
        Seq::empty()
    } else {
        zone_changes_spec(pins, temps, cfg, node_name, zones.drop_last(), now) + opt_change_seq(
            zone_change_entry(pins, temps, cfg, node_name, zones.last(), now),
        )
    }
}

/// Whether a zone demands heat right now: it has a last known state
/// and a temperature fact, and the hysteresis law says on. A zone
/// without facts demands nothing.
pub open spec fn zone_demands(
    pins: Seq<PinRecord>,
    temps: Seq<TempRecord>,
    cfg: Config,
    node: ControlNode,
    zone: Zone,
    now: LocalInstant,
) -> bool {
    match last_changed_spec(pins, node.name@, zone.control_pin) {
        None => false,
        Some(ls) => has_average(temps, zone) && zone_should_be_on_spec(
            cfg,
            ls.spec_is_on(),
            zone,
            zone_average(temps, zone),
            now.tod,
        ),
    }
}

/// Whether no zone of any node demands heat.
pub open spec fn all_zones_off_spec(
    pins: Seq<PinRecord>,
    temps: Seq<TempRecord>,
    cfg: Config,
    nodes: Seq<ControlNode>,
    now: LocalInstant,
) -> bool {
    forall|i: int, j: int|
        0 <= i < nodes.len() && 0 <= j < nodes[i].zones@.len() ==> !zone_demands(
            pins,
            temps,
            cfg,
            nodes[i],
            #[trigger] nodes[i].zones@[j],
            now,
        )
}

/// Orchestrates policies against live facts once per tick, applying
/// the priority and guard ordering, and produces a single change-set.
pub struct StateRetriever<'a> {
    pub repository: &'a PinStateRepository,
    pub heater_decider: &'a HeaterDecider<'a>,
    pub zone_decider: &'a ZoneStateDecider<'a>,
    pub config: &'a Settings,
}

impl<'a> StateRetriever<'a> {
    /// All parts read the same settings and the same store.
    pub open spec fn wf(&self) -> bool {
        &&& self.zone_decider.wf()
        &&& self.zone_decider.config == self.config
        &&& self.heater_decider.config == self.config
        &&& self.heater_decider.repository == self.repository
    }

    pub fn new(
        repository: &'a PinStateRepository,
        heater_decider: &'a HeaterDecider<'a>,
        zone_decider: &'a ZoneStateDecider<'a>,
        config: &'a Settings,
    ) -> (r: StateRetriever<'a>)
        ensures
            r.repository == repository,
            r.heater_decider == heater_decider,
            r.zone_decider == zone_decider,
            r.config == config,
    {
        StateRetriever { repository, heater_decider, zone_decider, config }
    }

    /// The commands one node's zones need this tick: for every zone
    /// with a last known state and a temperature fact, the edge law's
    /// verdict; zones without facts contribute nothing. Zones are
    /// expected to drive distinct control pins; see
    /// [`zone_changes_spec`] for what happens when they do not.
    pub fn get_zone_pins_to_change(&self, control_name: &str, zones: &Zones, now: &LocalInstant) -> (r:
        Vec<PinChange>)
        requires
            self.wf(),
            now.wf(),
        ensures
            r@ == zone_changes_spec(
                self.repository.pins(),
                self.repository.temps(),
                self.config.spec_config(),
                control_name@,
                zones@,
                *now,
            ),
    {
        let mut zone_changes: Vec<PinChange> = Vec::new();
        let n = zones.len();
        assert(zones@.take(0) =~= Seq::<Zone>::empty());
        assert(zone_changes@ =~= Seq::<PinChange>::empty());
        for i in 0..n
            invariant
                n == zones@.len(),
                self.wf(),
                now.wf(),
                zone_changes@ == zone_changes_spec(
                    self.repository.pins(),
                    self.repository.temps(),
                    self.config.spec_config(),
                    control_name@,
                    zones@.take(i as int),
                    *now,
                ),
        {
            let zone = &zones[i];
            assert(zones@.take(i + 1).drop_last() =~= zones@.take(i as int));
            assert(zones@.take(i + 1).last() == zones@[i as int]);
            let ghost before = zone_changes@;
            if let Some(last_state) = self.repository.get_last_changed_pin_state(
                control_name,
                zone.control_pin,
            ) {
                if let Some(avg_temp) = self.repository.get_average_temperature(
                    zone.name.as_str(),
                    zone.sensor_pin,
                    0,
                ) {
                    proof {
                        assert(avg_temp == zone_average(self.repository.temps(), *zone));
                    }
                    if let Some(value) = self.zone_decider.get_value_to_change_to(
                        &last_state,
                        zone,
                        &avg_temp,
                        now,
                    ) {
                        zone_changes.push(PinChange { pin: zone.control_pin, value });
                    }
                }
            }
            proof {
                assert(zone_changes@ =~= before + opt_change_seq(
                    zone_change_entry(
                        self.repository.pins(),
                        self.repository.temps(),
                        self.config.spec_config(),
                        control_name@,
                        zones@[i as int],
                        *now,
                    ),
                ));
            }
        }
        assert(zones@.take(n as int) =~= zones@);
        zone_changes
    }

    /// Whether every zone of every node is content: no zone with a
    /// known state and a temperature fact asks for heat.
    pub fn all_zones_should_be_off(&self, control_nodes: &ControlNodes, now: &LocalInstant) -> (r:
        bool)
        requires
            self.wf(),
            now.wf(),
        ensures
            r == all_zones_off_spec(
                self.repository.pins(),
                self.repository.temps(),
                self.config.spec_config(),
                control_nodes@,
                *now,
            ),
    {
        let n = control_nodes.len();
        for i in 0..n
            invariant
                n == control_nodes@.len(),
                self.wf(),
                now.wf(),
                forall|i2: int, j2: int|
                    0 <= i2 < i && 0 <= j2 < control_nodes@[i2].zones@.len() ==> !zone_demands(
                        self.repository.pins(),
                        self.repository.temps(),
                        self.config.spec_config(),
                        control_nodes@[i2],
                        #[trigger] control_nodes@[i2].zones@[j2],
                        *now,
                    ),
        {
            let node = &control_nodes[i];
            let m = node.zones.len();
            for j in 0..m
                invariant
                    0 <= i < control_nodes@.len(),
                    m == control_nodes@[i as int].zones@.len(),
                    node == &control_nodes@[i as int],
                    self.wf(),
                    now.wf(),
                    forall|j2: int|
                        0 <= j2 < j ==> !zone_demands(
                            self.repository.pins(),
                            self.repository.temps(),
                            self.config.spec_config(),
                            control_nodes@[i as int],
                            #[trigger] control_nodes@[i as int].zones@[j2],
                            *now,
                        ),
            {
                let zone = &node.zones[j];
                if let Some(last_state) = self.repository.get_last_changed_pin_state(
                    node.name.as_str(),
                    zone.control_pin,
                ) {
                    if let Some(avg_temp) = self.repository.get_average_temperature(
                        zone.name.as_str(),
                        zone.sensor_pin,
                        0,
                    ) {
                        proof {
                            assert(avg_temp == zone_average(self.repository.temps(), *zone));
                        }
                        if self.zone_decider.should_be_on(&last_state, zone, &avg_temp, now) {
                            proof {
                                assert(zone_demands(
                                    self.repository.pins(),
                                    self.repository.temps(),
                                    self.config.spec_config(),
                                    control_nodes@[i as int],
                                    control_nodes@[i as int].zones@[j as int],
                                    *now,
                                ));
                            }
                            return false;
                        }
                    }
                }
            }
        }
        true
    }
}

/// The change-set shape that commands the central actuator alone.
pub open spec fn heater_changes_model(cfg: Config, value: bool) -> Seq<(Seq<char>, Seq<PinChange>)> {
    seq![
        (
            cfg.heater_control_name@,
            seq![(PinChange { pin: cfg.heater_control_pin, value: PinValue::Digital(value) })],
        ),
    ]
}

/// The zone-edge change-set of a tick: each node that has at least one
/// zone command contributes one entry, in node order.
pub open spec fn node_changes_model(
    pins: Seq<PinRecord>,
    temps: Seq<TempRecord>,
    cfg: Config,
    nodes: Seq<ControlNode>,
    now: LocalInstant,
) -> Seq<(Seq<char>, Seq<PinChange>)>
    decreases nodes.len(),
{
    if nodes.len() == 0 {
        Seq::empty()
    } else {
        let zc = zone_changes_spec(pins, temps, cfg, nodes.last().name@, nodes.last().zones@, now);
        node_changes_model(pins, temps, cfg, nodes.drop_last(), now) + if zc.len() > 0 {
            seq![(nodes.last().name@, zc)]
        } else {
            Seq::empty()
        }
    }
}

/// The later tick states: zone edges if any zone has one, else the
/// heater-on decision, else nothing.
pub open spec fn tick_tail_model(
    pins: Seq<PinRecord>,
    temps: Seq<TempRecord>,
    cfg: Config,
    nodes: Seq<ControlNode>,
    now: LocalInstant,
) -> Seq<(Seq<char>, Seq<PinChange>)> {
    let zc = node_changes_model(pins, temps, cfg, nodes, now);
    if zc.len() > 0 {
        zc
    } else {
        match last_changed_spec(pins, cfg.heater_control_name@, cfg.heater_control_pin) {
            Some(st) => if !st.spec_is_on() && heater_should_be_on_spec(pins, nodes, cfg, now) {
                heater_changes_model(cfg, true)
            } else {
                Seq::empty()
            },
            None => Seq::empty(),
        }
    }
}

/// What one tick emits, in strict priority order: the global shutoff
/// override when the central actuator is on and no zone demands heat;
/// nothing while the cool-down guard holds; otherwise zone edges, then
/// the heater-on decision, then nothing.
pub open spec fn tick_model(
    pins: Seq<PinRecord>,
    temps: Seq<TempRecord>,
    cfg: Config,
    nodes: Seq<ControlNode>,
    now: LocalInstant,
) -> Seq<(Seq<char>, Seq<PinChange>)> {
    match last_changed_spec(pins, cfg.heater_control_name@, cfg.heater_control_pin) {
        Some(st) => if st.spec_is_on() && all_zones_off_spec(pins, temps, cfg, nodes, now) {
            heater_changes_model(cfg, false)
        } else if !can_turn_zones_off_spec(cfg, st, now) {
            Seq::empty()
        } else {
            tick_tail_model(pins, temps, cfg, nodes, now)
        },
        None => tick_tail_model(pins, temps, cfg, nodes, now),
    }
}

impl<'a> StateRetriever<'a> {
    /// A change-set holding one command for the central actuator.
    fn turn_heater(&self, value: bool) -> (r: PinChanges)
        ensures
            pin_changes_matches(r@, heater_changes_model(self.config.spec_config(), value)),
    {
        let mut changes: Vec<PinChange> = Vec::new();
        changes.push(PinChange { pin: self.config.heater_control_pin(), value: PinValue::Digital(value) });
        let mut out: PinChanges = Vec::new();
        out.push(NodeChanges { name: self.config.heater_control_name(), changes });
        proof {
            assert(out@[0].changes@ =~= heater_changes_model(self.config.spec_config(), value)[0].1);
        }
        out
    }

    /// One tick of reconciliation. Exactly one of five things happens,
    /// in this order: the central actuator is commanded off when it is
    /// on and no zone demands heat; nothing is emitted while the
    /// cool-down guard holds; zone edges are emitted if any zone has
    /// one; the central actuator is commanded on when it is off and
    /// demand has outlasted the warm-up time; or nothing is emitted.
    /// The result is a function of the store, the schedule and the
    /// clock alone: ticks over the same facts agree.
    pub fn get_pins_expected_to_change(&self, control_nodes: &ControlNodes, now: &LocalInstant) -> (r:
        PinChanges)
        requires
            self.wf(),
            self.repository.wf(),
            now.wf(),
        ensures
            pin_changes_matches(
                r@,
                tick_model(
                    self.repository.pins(),
                    self.repository.temps(),
                    self.config.spec_config(),
                    control_nodes@,
                    *now,
                ),
            ),
            (match last_changed_spec(
                self.repository.pins(),
                self.config.spec_config().heater_control_name@,
                self.config.spec_config().heater_control_pin,
            ) {
                Some(st) => st.spec_is_on() && all_zones_off_spec(
                    self.repository.pins(),
                    self.repository.temps(),
                    self.config.spec_config(),
                    control_nodes@,
                    *now,
                ),
                None => false,
            }) ==> pin_changes_matches(
                r@,
                heater_changes_model(self.config.spec_config(), false),
            ),
            (match last_changed_spec(
                self.repository.pins(),
                self.config.spec_config().heater_control_name@,
                self.config.spec_config().heater_control_pin,
            ) {
                Some(st) => !st.spec_is_on() && !can_turn_zones_off_spec(
                    self.config.spec_config(),
                    st,
                    *now,
                ),
                None => false,
            }) ==> r@.len() == 0,
    {
        let heater_name = self.config.heater_control_name();
        let current_state = self.repository.get_last_changed_pin_state(
            heater_name.as_str(),
            self.config.heater_control_pin(),
        );
        if let Some(state) = current_state {
            proof {
                lemma_last_changed_wf(
                    self.repository.pins(),
                    self.config.spec_config().heater_control_name@,
                    self.config.spec_config().heater_control_pin,
                );
            }
            if state.is_on() && self.all_zones_should_be_off(control_nodes, now) {
                return self.turn_heater(false);
            } else if !self.heater_decider.can_turn_zones_off(&state, now) {
                return PinChanges::new();
            }
        }
        let mut control_changes: PinChanges = Vec::new();
        let n = control_nodes.len();
        assert(control_nodes@.take(0) =~= Seq::<ControlNode>::empty());
        for i in 0..n
            invariant
                n == control_nodes@.len(),
                self.wf(),
                self.repository.wf(),
                now.wf(),
                pin_changes_matches(
                    control_changes@,
                    node_changes_model(
                        self.repository.pins(),
                        self.repository.temps(),
                        self.config.spec_config(),
                        control_nodes@.take(i as int),
                        *now,
                    ),
                ),
        {
            let node = &control_nodes[i];
            assert(control_nodes@.take(i + 1).drop_last() =~= control_nodes@.take(i as int));
            assert(control_nodes@.take(i + 1).last() == control_nodes@[i as int]);
            let ghost before = control_changes@;
            let ghost before_model = node_changes_model(
                self.repository.pins(),
                self.repository.temps(),
                self.config.spec_config(),
                control_nodes@.take(i as int),
                *now,
            );
            let zone_changes = self.get_zone_pins_to_change(node.name.as_str(), &node.zones, now);
            if zone_changes.len() > 0 {
                control_changes.push(NodeChanges { name: node.name.clone(), changes: zone_changes });
            }
            proof {
                let after_model = node_changes_model(
                    self.repository.pins(),
                    self.repository.temps(),
                    self.config.spec_config(),
                    control_nodes@.take(i + 1),
                    *now,
                );
                assert(pin_changes_matches(control_changes@, after_model));
            }
        }
        assert(control_nodes@.take(n as int) =~= control_nodes@);
        if control_changes.len() > 0 {
            return control_changes;
        }
        if let Some(state) = current_state {
            if !state.is_on() && self.heater_decider.should_be_on(control_nodes, now) {
                return self.turn_heater(true);
            }
        }
        control_changes
    }
}

/// Reconciliation is stateless: the tick's contract determines its
/// output from the store, the schedule and the clock alone, so two
/// ticks over the same facts with no intervening writes agree — the
/// loop cannot flap on unchanged input. Any two change-sets that meet
/// the tick's contract over the same facts carry the same names and
/// the same commands.
pub proof fn lemma_tick_stateless(
    pins: Seq<PinRecord>,
    temps: Seq<TempRecord>,
    cfg: Config,
    nodes: Seq<ControlNode>,
    now: LocalInstant,
    first: Seq<NodeChanges>,
    second: Seq<NodeChanges>,
)
    requires
        pin_changes_matches(first, tick_model(pins, temps, cfg, nodes, now)),
        pin_changes_matches(second, tick_model(pins, temps, cfg, nodes, now)),
    ensures
        first.len() == second.len(),
        forall|i: int|
            0 <= i < first.len() ==> (#[trigger] first[i]).name@ == second[i].name@ && first[i].changes@
                == second[i].changes@,
{
}

/// No data, no command: a zone whose actuator stream was never
/// observed in the store contributes nothing to a tick, whatever its
/// schedule and whatever temperatures were reported.
pub proof fn lemma_unobserved_zone_no_command(
    pins: Seq<PinRecord>,
    temps: Seq<TempRecord>,
    cfg: Config,
    node_name: Seq<char>,
    zone: Zone,
    now: LocalInstant,
)
    requires
        forall|i: int|
            0 <= i < pins.len() ==> !(#[trigger] pins[i]).addressed(node_name, zone.control_pin),
    ensures
        zone_change_entry(pins, temps, cfg, node_name, zone, now) is None,
{
    crate::repository::lemma_unobserved_stream(pins, node_name, zone.control_pin);
}

/// Once a zone command is applied and echoed back, and the temperature
/// and schedule are unchanged, the edge law emits nothing further: the
/// loop does not flap on unchanged input. Holds whenever the floor
/// percent is at least one, the deadband is at least a hundredth of a
/// degree, and the hysteresis band is positive — a floor percent of
/// zero, or a zero band, could emit an "on" command of zero drive,
/// which would read back as off.
pub proof fn lemma_no_flap_after_apply(
    cfg: Config,
    last_on: bool,
    zone: Zone,
    current: Temperature,
    tod: u32,
)
    requires
        cfg.min_pwm_state >= 1,
        cfg.min_temperature_diff_for_pwm.millis >= 10,
        cfg.temperature_drop_wait.millis >= 1,
        value_to_change_spec(cfg, last_on, zone, current, tod) matches Some(v),
    ensures
        (match value_to_change_spec(cfg, last_on, zone, current, tod) {
            Some(v) => value_to_change_spec(cfg, v.spec_is_on(), zone, current, tod) is None,
            None => true,
        }),
{
    let v = value_to_change_spec(cfg, last_on, zone, current, tod)->Some_0;
    if last_on {
        assert(v == PinValue::Analog(0u16));
        assert(!v.spec_is_on());
        assert(!zone_should_be_on_spec(cfg, last_on, zone, current, tod));
        match crate::zone::expected_temperature_spec(zone.times@, tod) {
            None => {},
            Some(sp) => {
                assert(current.millis >= sp.millis);
            },
        }
    } else {
        assert(zone_should_be_on_spec(cfg, last_on, zone, current, tod));
        let sp = crate::zone::expected_temperature_spec(zone.times@, tod)->Some_0;
        assert((current.millis as int) <= sp.millis - cfg.temperature_drop_wait.millis);
        assert(current.millis < sp.millis);
        let value = crate::deciders::expected_value_spec(cfg, zone, current, tod);
        let diff = sp.millis - current.millis;
        if diff <= cfg.min_temperature_diff_for_pwm.millis {
            assert(value == crate::pin::percent_to_analog_spec(cfg.min_pwm_state));
            assert(value >= 1023int / 100);
        } else if diff < 1000 {
            assert(diff / 10 >= 1);
            assert(diff / 10 <= 99);
            assert(value == crate::pin::percent_to_analog_spec((diff / 10) as u8));
            assert(value >= 1023int / 100);
        } else {
            assert(value == crate::pin::percent_to_analog_spec(100));
        }
        assert(value > 0);
        assert(v.spec_is_on());
    }
}

} // verus!
