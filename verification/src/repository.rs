//! The reading store: a durable, append-only log of raw readings, and
//! the derived-fact queries over it — last known state, windowed
//! temperature averages, and reconstructed on/off transition history.
//!
//! Readings are never updated or deleted; every query recomputes its
//! answer from the log, so absence of data is an ordinary `None`, not
//! an error.
use vstd::prelude::*;

use crate::config::ControlNodes;
use crate::pin::{PinOperation, PinState, PinValue, Temperature, MAX_TIMESTAMP};
use crate::zone::Zone;

verus! {

use vstd::arithmetic::div_mod::{
    lemma_div_is_ordered,
    lemma_div_multiples_vanish,
    lemma_hoist_over_denominator,
};

/// One row of the pin/relay/analog record set.
#[derive(Clone, Debug)]
pub struct PinRecord {
    pub name: String,
    pub pin: u8,
    pub value: PinValue,
    pub dt: i64,
}

/// One row of the temperature record set.
#[derive(Clone, Debug)]
pub struct TempRecord {
    pub name: String,
    pub pin: u8,
    pub temperature: Temperature,
    pub dt: i64,
}

impl PinRecord {
    /// Whether this row belongs to the stream of the given address.
    pub open spec fn addressed(self, name: Seq<char>, pin: u8) -> bool {
        self.name@ == name && self.pin == pin
    }

    /// The boolean state this row reports.
    pub open spec fn on(self) -> bool {
        self.value.spec_is_on()
    }

    /// The derived state this row induces.
    pub open spec fn to_state(self) -> PinState {
        PinState { pin: self.pin, value: self.value, dt: self.dt }
    }
}

/// A selection over the pin log, the spec-level counterpart of
/// [`PinStateBuilder`]: which rows qualify, and whether the latest or
/// the earliest qualifying row is wanted.
pub ghost struct PinFilter {
    pub name: Seq<char>,
    pub pin: u8,
    /// Require this boolean state, if set.
    pub on: Option<bool>,
    /// Require `lo < dt`, if set.
    pub lo: Option<int>,
    /// Require `dt <= hi_inc`, if set.
    pub hi_inc: Option<int>,
    /// Require `dt < hi_exc`, if set.
    pub hi_exc: Option<int>,
    /// Pick the latest qualifying row when true, else the earliest.
    pub desc: bool,
}

/// Whether a row qualifies under a filter.
pub open spec fn accepts(f: PinFilter, r: PinRecord) -> bool {
    &&& r.addressed(f.name, f.pin)
    &&& match f.on {
        Some(on) => r.on() == on,
        None => true,
    }
    &&& match f.lo {
        Some(lo) => lo < r.dt,
        None => true,
    }
    &&& match f.hi_inc {
        Some(hi) => r.dt <= hi,
        None => true,
    }
    &&& match f.hi_exc {
        Some(hi) => r.dt < hi,
        None => true,
    }
}

/// The row a filter selects from a log: the latest qualifying row when
/// `desc`, else the earliest. Among rows with equal timestamps the one
/// appended later wins a `desc` selection and the one appended earlier
/// wins an ascending one.
pub open spec fn selected(rows: Seq<PinRecord>, f: PinFilter) -> Option<PinRecord>
    decreases rows.len(),
{
    if rows.len() == 0 {
        None
    } else {
        let rest = selected(rows.drop_last(), f);
        let last = rows.last();
        if accepts(f, last) {
            match rest {
                None => Some(last),
                Some(best) => if (f.desc && last.dt >= best.dt) || (!f.desc && last.dt < best.dt) {
                    Some(last)
                } else {
                    Some(best)
                },
            }
        } else {
            rest
        }
    }
}

/// The derived state of a selected row, if any row was selected.
pub open spec fn selected_state(rows: Seq<PinRecord>, f: PinFilter) -> Option<PinState> {
    match selected(rows, f) {
        None => None,
        Some(r) => Some(r.to_state()),
    }
}

/// A selected row comes from the log and qualifies under the filter.
pub proof fn lemma_selected_props(rows: Seq<PinRecord>, f: PinFilter)
    ensures
        match selected(rows, f) {
            None => true,
            Some(r) => rows.contains(r) && accepts(f, r),
        },
    decreases rows.len(),
{
    if rows.len() > 0 {
        lemma_selected_props(rows.drop_last(), f);
        match selected(rows.drop_last(), f) {
            None => {},
            Some(best) => {
                assert(rows.drop_last().contains(best));
                let i = choose|i: int|
                    0 <= i < rows.drop_last().len() && rows.drop_last()[i] == best;
                assert(rows[i] == best);
            },
        }
        assert(rows[rows.len() - 1] == rows.last());
    }
}

/// Every pin row carries a usable timestamp.
pub open spec fn pin_rows_wf(rows: Seq<PinRecord>) -> bool {
    forall|i: int| 0 <= i < rows.len() ==> 0 <= #[trigger] rows[i].dt <= MAX_TIMESTAMP
}

/// Every temperature row carries a usable timestamp.
pub open spec fn temp_rows_wf(rows: Seq<TempRecord>) -> bool {
    forall|i: int| 0 <= i < rows.len() ==> 0 <= #[trigger] rows[i].dt <= MAX_TIMESTAMP
}

/// The persistent reading store. Two append-only record sets, one for
/// pin readings and one for temperature readings, both indexed by
/// `(name, pin, timestamp)` in every query.
pub struct PinStateRepository {
    pin_rows: Vec<PinRecord>,
    temp_rows: Vec<TempRecord>,
}

impl PinStateRepository {
    /// The pin/relay/analog record set, in order of appending.
    pub closed spec fn pins(&self) -> Seq<PinRecord> {
        self.pin_rows@
    }

    /// The temperature record set, in order of appending.
    pub closed spec fn temps(&self) -> Seq<TempRecord> {
        self.temp_rows@
    }

    /// Every stored timestamp is usable: non-negative and bounded, so
    /// duration arithmetic against a well-formed clock cannot overflow.
    pub open spec fn wf(&self) -> bool {
        pin_rows_wf(self.pins()) && temp_rows_wf(self.temps())
    }

    /// An empty store: nothing has been observed yet.
    pub fn new() -> (r: PinStateRepository)
        ensures
            r.pins() == Seq::<PinRecord>::empty(),
            r.temps() == Seq::<TempRecord>::empty(),
            r.wf(),
    {
        let r = PinStateRepository { pin_rows: Vec::new(), temp_rows: Vec::new() };
        assert(r.pins() =~= Seq::<PinRecord>::empty());
        assert(r.temps() =~= Seq::<TempRecord>::empty());
        r
    }

    /// Append one decoded reading: a temperature goes to the
    /// temperature record set, anything else to the pin record set.
    /// Duplicate timestamps and repeated values are appended like any
    /// other reading, never rejected.
    pub fn save_state(&mut self, op: &PinOperation)
        requires
            0 <= op.pin_state.dt <= MAX_TIMESTAMP,
        ensures
            match op.pin_state.value {
                PinValue::Temperature(t) => {
                    &&& final(self).temps() == old(self).temps().push(
                        TempRecord {
                            name: op.node,
                            pin: op.pin_state.pin,
                            temperature: t,
                            dt: op.pin_state.dt,
                        },
                    )
                    &&& final(self).pins() == old(self).pins()
                },
                _ => {
                    &&& final(self).pins() == old(self).pins().push(
                        PinRecord {
                            name: op.node,
                            pin: op.pin_state.pin,
                            value: op.pin_state.value,
                            dt: op.pin_state.dt,
                        },
                    )
                    &&& final(self).temps() == old(self).temps()
                },
            },
            old(self).wf() ==> final(self).wf(),
    {
        match op.pin_state.value {
            PinValue::Temperature(t) => {
                self.temp_rows.push(
                    TempRecord {
                        name: op.node.clone(),
                        pin: op.pin_state.pin,
                        temperature: t,
                        dt: op.pin_state.dt,
                    },
                );
            },
            _ => {
                self.pin_rows.push(
                    PinRecord {
                        name: op.node.clone(),
                        pin: op.pin_state.pin,
                        value: op.pin_state.value,
                        dt: op.pin_state.dt,
                    },
                );
            },
        }
    }
}

/// A query over the pin record set, assembled filter by filter and run
/// with [`PinStateBuilder::first_to_state`]. The executable counterpart
/// of [`PinFilter`].
pub struct PinStateBuilder {
    name: String,
    pin: u8,
    on: Option<bool>,
    lo: Option<i64>,
    hi_inc: Option<i64>,
    hi_exc: Option<i64>,
    desc: bool,
}

impl View for PinStateBuilder {
    type V = PinFilter;

    closed spec fn view(&self) -> PinFilter {
        PinFilter {
            name: self.name@,
            pin: self.pin,
            on: self.on,
            lo: match self.lo {
                Some(t) => Some(t as int),
                None => None,
            },
            hi_inc: match self.hi_inc {
                Some(t) => Some(t as int),
                None => None,
            },
            hi_exc: match self.hi_exc {
                Some(t) => Some(t as int),
                None => None,
            },
            desc: self.desc,
        }
    }
}

impl PinStateBuilder {
    /// Select the rows of one `(name, pin)` stream, in ascending order.
    pub fn from_name(name_id: &str, pin_id: u8) -> (r: PinStateBuilder)
        ensures
            r@ == (PinFilter {
                name: name_id@,
                pin: pin_id,
                on: None,
                lo: None,
                hi_inc: None,
                hi_exc: None,
                desc: false,
            }),
    {
        PinStateBuilder {
            name: name_id.to_owned(),
            pin: pin_id,
            on: None,
            lo: None,
            hi_inc: None,
            hi_exc: None,
            desc: false,
        }
    }

    /// Keep only rows whose boolean state is `state`.
    pub fn with_value(self, state: bool) -> (r: PinStateBuilder)
        ensures
            r@ == (PinFilter { on: Some(state), ..self@ }),
    {
        PinStateBuilder { on: Some(state), ..self }
    }

    /// Keep only rows strictly before `time`.
    pub fn with_less(self, time: i64) -> (r: PinStateBuilder)
        ensures
            r@ == (PinFilter { hi_exc: Some(time as int), ..self@ }),
    {
        PinStateBuilder { hi_exc: Some(time), ..self }
    }

    /// Keep only rows at or before `time`.
    pub fn with_less_or_eq(self, time: i64) -> (r: PinStateBuilder)
        ensures
            r@ == (PinFilter { hi_inc: Some(time as int), ..self@ }),
    {
        PinStateBuilder { hi_inc: Some(time), ..self }
    }

    /// Keep only rows in the half-open period `from < dt <= to`.
    pub fn within_period(self, from: i64, to: i64) -> (r: PinStateBuilder)
        ensures
            r@ == (PinFilter { lo: Some(from as int), hi_inc: Some(to as int), ..self@ }),
    {
        PinStateBuilder { lo: Some(from), hi_inc: Some(to), ..self }
    }

    /// Pick the latest qualifying row when `desc`, else the earliest.
    pub fn order_by_time(self, desc: bool) -> (r: PinStateBuilder)
        ensures
            r@ == (PinFilter { desc, ..self@ }),
    {
        PinStateBuilder { desc, ..self }
    }

    /// Run the query: the derived state of the first row in the chosen
    /// order, or `None` when no row qualifies.
    pub fn first_to_state(self, repository: &PinStateRepository) -> (r: Option<PinState>)
        ensures
            r == selected_state(repository.pins(), self@),
    {
        let rows = &repository.pin_rows;
        let n = rows.len();
        let mut best: Option<PinState> = None;
        assert(rows@.take(0) =~= Seq::<PinRecord>::empty());
        for i in 0..n
            invariant
                n == rows@.len(),
                rows@ == repository.pins(),
                best == selected_state(rows@.take(i as int), self@),
        {
            let row = &rows[i];
            assert(rows@.take(i + 1).drop_last() =~= rows@.take(i as int));
            assert(rows@.take(i + 1).last() == rows@[i as int]);
            let qualifies = str_eq_string(&self.name, &row.name) && row.pin == self.pin && (match self.on {
                Some(on) => row.value.is_on() == on,
                None => true,
            }) && (match self.lo {
                Some(lo) => lo < row.dt,
                None => true,
            }) && (match self.hi_inc {
                Some(hi) => row.dt <= hi,
                None => true,
            }) && (match self.hi_exc {
                Some(hi) => row.dt < hi,
                None => true,
            });
            if qualifies {
                best = match best {
                    None => Some(PinState::new(row.pin, row.value, row.dt)),
                    Some(b) => if (self.desc && row.dt >= b.dt) || (!self.desc && row.dt < b.dt) {
                        Some(PinState::new(row.pin, row.value, row.dt))
                    } else {
                        Some(b)
                    },
                };
            }
        }
        assert(rows@.take(n as int) =~= rows@);
        best
    }
}

/// Whether two owned strings hold the same characters.
fn str_eq_string(a: &String, b: &String) -> (r: bool)
    ensures
        r == (a@ == b@),
{
    *a == *b
}

/// The latest row of a stream.
pub open spec fn f_latest(name: Seq<char>, pin: u8) -> PinFilter {
    PinFilter { name, pin, on: None, lo: None, hi_inc: None, hi_exc: None, desc: true }
}

/// The latest row of a stream with state `on`, strictly before `before`.
pub open spec fn f_latest_with_before(name: Seq<char>, pin: u8, on: bool, before: int) -> PinFilter {
    PinFilter { name, pin, on: Some(on), lo: None, hi_inc: None, hi_exc: Some(before), desc: true }
}

/// The earliest row of a stream with state `on` in `after < dt <= until`.
pub open spec fn f_earliest_between(name: Seq<char>, pin: u8, on: bool, after: int, until: int) -> PinFilter {
    PinFilter { name, pin, on: Some(on), lo: Some(after), hi_inc: Some(until), hi_exc: None, desc: false }
}

/// The earliest row of a stream with state `on` at or before `until`.
pub open spec fn f_earliest_until(name: Seq<char>, pin: u8, on: bool, until: int) -> PinFilter {
    PinFilter { name, pin, on: Some(on), lo: None, hi_inc: Some(until), hi_exc: None, desc: false }
}

/// The backward walk of the transition reconstruction: starting from a
/// reference row with state `on` at `dt`, repeatedly find the latest
/// earlier row of the opposite state. Each step yields the boundary
/// between two contiguous runs of readings sharing one state; the walk
/// ends when no opposite row is left or `remaining` steps were taken.
pub open spec fn change_dates_from(
    rows: Seq<PinRecord>,
    name: Seq<char>,
    pin: u8,
    on: bool,
    dt: i64,
    remaining: nat,
) -> Seq<(bool, i64)>
    decreases remaining,
{
    if remaining == 0 {
        Seq::empty()
    } else {
        match selected(rows, f_latest_with_before(name, pin, !on, dt as int)) {
            None => Seq::empty(),
            Some(r) => seq![(r.on(), r.dt)] + change_dates_from(
                rows,
                name,
                pin,
                r.on(),
                r.dt,
                (remaining - 1) as nat,
            ),
        }
    }
}

/// Up to `size` run boundaries of a stream, most recent first, starting
/// with the latest row; `None` when the stream was never observed.
pub open spec fn change_dates(rows: Seq<PinRecord>, name: Seq<char>, pin: u8, size: nat) -> Option<
    Seq<(bool, i64)>,
> {
    match selected(rows, f_latest(name, pin)) {
        None => None,
        Some(r0) => if size == 0 {
            Some(Seq::<(bool, i64)>::empty())
        } else {
            Some(
                seq![(r0.on(), r0.dt)] + change_dates_from(
                    rows,
                    name,
                    pin,
                    r0.on(),
                    r0.dt,
                    (size - 1) as nat,
                ),
            )
        },
    }
}

/// A selection result as a sequence of zero or one derived states.
pub open spec fn opt_state_seq(o: Option<PinState>) -> Seq<PinState> {
    match o {
        None => Seq::empty(),
        Some(st) => seq![st],
    }
}

/// The transition events between consecutive run boundaries: for each
/// boundary, the earliest reading confirming the new run's state after
/// the older boundary — the first sample of the new state, not the last
/// sample of the old one. For the oldest boundary, with nothing older
/// to bound it, the earliest sample of that state at or before it.
pub open spec fn transitions_of(
    rows: Seq<PinRecord>,
    name: Seq<char>,
    pin: u8,
    dates: Seq<(bool, i64)>,
    cap: nat,
) -> Seq<PinState>
    decreases dates.len(),
{
    if cap == 0 || dates.len() == 0 {
        Seq::empty()
    } else if dates.len() == 1 {
        opt_state_seq(selected_state(rows, f_earliest_until(name, pin, dates[0].0, dates[0].1 as int)))
    } else {
        opt_state_seq(
            selected_state(
                rows,
                f_earliest_between(name, pin, dates[0].0, dates[1].1 as int, dates[0].1 as int),
            ),
        ) + transitions_of(rows, name, pin, dates.drop_first(), (cap - 1) as nat)
    }
}

/// Up to `how_many` most recent state-change instants of a stream, most
/// recent first; `None` exactly when the stream was never observed.
pub open spec fn pin_changes_spec(
    rows: Seq<PinRecord>,
    name: Seq<char>,
    pin: u8,
    how_many: nat,
) -> Option<Seq<PinState>> {
    match change_dates(rows, name, pin, how_many + 1) {
        None => None,
        Some(dates) => Some(transitions_of(rows, name, pin, dates, how_many)),
    }
}

/// The most recent state-change instant of a stream, if any.
pub open spec fn last_changed_spec(rows: Seq<PinRecord>, name: Seq<char>, pin: u8) -> Option<
    PinState,
> {
    match pin_changes_spec(rows, name, pin, 1) {
        None => None,
        Some(s) => if s.len() > 0 {
            Some(s[0])
        } else {
            None
        },
    }
}

impl PinStateRepository {
    /// The most recent reading of a stream, by timestamp; `None` if the
    /// stream was never observed.
    pub fn get_last_pin_state(&self, name_id: &str, pin_id: u8) -> (r: Option<PinState>)
        ensures
            r == selected_state(self.pins(), f_latest(name_id@, pin_id)),
    {
        PinStateBuilder::from_name(name_id, pin_id).order_by_time(true).first_to_state(self)
    }

    /// The run boundaries of a stream, most recent first: the latest
    /// reading, then for each step the latest earlier reading of the
    /// opposite state, up to `size` entries.
    fn get_latest_pin_change_dates(&self, name_id: &str, pin_id: u8, size: usize) -> (r: Option<
        Vec<(bool, i64)>,
    >)
        requires
            1 <= size,
        ensures
            match (r, change_dates(self.pins(), name_id@, pin_id, size as nat)) {
                (None, None) => true,
                (Some(v), Some(d)) => v@ == d,
                _ => false,
            },
    {
        match self.get_last_pin_state(name_id, pin_id) {
            None => None,
            Some(state) => {
                let mut arr: Vec<(bool, i64)> = Vec::new();
                let mut cur_on = state.is_on();
                let mut cur_dt = state.dt;
                arr.push((cur_on, cur_dt));
                proof {
                    let d0 = change_dates(self.pins(), name_id@, pin_id, size as nat);
                    assert(arr@ =~= seq![(state.spec_is_on(), state.dt)]);
                    assert(d0 matches Some(d) && d == arr@ + change_dates_from(
                        self.pins(),
                        name_id@,
                        pin_id,
                        cur_on,
                        cur_dt,
                        (size - 1) as nat,
                    ));
                }
                while arr.len() < size
                    invariant
                        1 <= arr@.len() <= size,
                        arr@.len() > 0,
                        change_dates(self.pins(), name_id@, pin_id, size as nat) matches Some(d)
                            && d == arr@ + change_dates_from(
                            self.pins(),
                            name_id@,
                            pin_id,
                            cur_on,
                            cur_dt,
                            (size - arr@.len()) as nat,
                        ),
                    decreases size - arr.len(),
                {
                    let next = PinStateBuilder::from_name(name_id, pin_id).with_value(
                        !cur_on,
                    ).order_by_time(true).with_less(cur_dt).first_to_state(self);
                    proof {
                        assert(f_latest_with_before(name_id@, pin_id, !cur_on, cur_dt as int)
                            == (PinFilter {
                            name: name_id@,
                            pin: pin_id,
                            on: Some(!cur_on),
                            lo: None,
                            hi_inc: None,
                            hi_exc: Some(cur_dt as int),
                            desc: true,
                        }));
                    }
                    match next {
                        Some(st) => {
                            let ghost before = arr@;
                            arr.push((st.is_on(), st.dt));
                            proof {
                                assert(arr@ =~= before + seq![(st.spec_is_on(), st.dt)]);
                                assert(before + (seq![(st.spec_is_on(), st.dt)]
                                    + change_dates_from(
                                    self.pins(),
                                    name_id@,
                                    pin_id,
                                    st.spec_is_on(),
                                    st.dt,
                                    (size - arr@.len()) as nat,
                                )) =~= arr@ + change_dates_from(
                                    self.pins(),
                                    name_id@,
                                    pin_id,
                                    st.spec_is_on(),
                                    st.dt,
                                    (size - arr@.len()) as nat,
                                ));
                            }
                            cur_on = st.is_on();
                            cur_dt = st.dt;
                        },
                        None => {
                            proof {
                                assert(arr@ + change_dates_from(
                                    self.pins(),
                                    name_id@,
                                    pin_id,
                                    cur_on,
                                    cur_dt,
                                    (size - arr@.len()) as nat,
                                ) =~= arr@);
                            }
                            return Some(arr);
                        },
                    }
                }
                proof {
                    assert(arr@ + change_dates_from(
                        self.pins(),
                        name_id@,
                        pin_id,
                        cur_on,
                        cur_dt,
                        0,
                    ) =~= arr@);
                }
                Some(arr)
            },
        }
    }

    /// Up to `how_many` most recent state-change instants of a stream,
    /// most recent first: for each pair of consecutive run boundaries,
    /// the earliest reading confirming the newer run's state. `None`
    /// exactly when the stream was never observed; otherwise as many
    /// transitions as could be found, possibly fewer than asked for.
    pub fn get_pin_changes(&self, name_id: &str, pin_id: u8, how_many: usize) -> (r: Option<
        Vec<PinState>,
    >)
        requires
            how_many < usize::MAX,
        ensures
            match (r, pin_changes_spec(self.pins(), name_id@, pin_id, how_many as nat)) {
                (None, None) => true,
                (Some(v), Some(s)) => v@ == s,
                _ => false,
            },
    {
        match self.get_latest_pin_change_dates(name_id, pin_id, how_many + 1) {
            None => None,
            Some(dates) => {
                let mut out: Vec<PinState> = Vec::new();
                let mut i: usize = 0;
                proof {
                    assert(dates@.skip(0) =~= dates@);
                    assert(out@ =~= Seq::<PinState>::empty());
                }
                while i < how_many && i < dates.len()
                    invariant
                        i <= how_many,
                        i <= dates@.len(),
                        transitions_of(self.pins(), name_id@, pin_id, dates@, how_many as nat)
                            == out@ + transitions_of(
                            self.pins(),
                            name_id@,
                            pin_id,
                            dates@.skip(i as int),
                            (how_many - i) as nat,
                        ),
                    decreases dates.len() - i,
                {
                    let cur = dates[i];
                    proof {
                        assert(dates@.skip(i as int)[0] == dates@[i as int]);
                    }
                    let found = if i + 1 < dates.len() {
                        let nxt = dates[i + 1];
                        proof {
                            assert(dates@.skip(i as int)[1] == dates@[i + 1]);
                        }
                        PinStateBuilder::from_name(name_id, pin_id).with_value(
                            cur.0,
                        ).order_by_time(false).within_period(nxt.1, cur.1).first_to_state(self)
                    } else {
                        PinStateBuilder::from_name(name_id, pin_id).with_value(
                            cur.0,
                        ).order_by_time(false).with_less_or_eq(cur.1).first_to_state(self)
                    };
                    let ghost before = out@;
                    match found {
                        Some(st) => {
                            out.push(st);
                            proof {
                                assert(out@ =~= before + opt_state_seq(Some(st)));
                            }
                        },
                        None => {
                            proof {
                                assert(out@ =~= before + opt_state_seq(None));
                            }
                        },
                    }
                    proof {
                        assert(dates@.skip(i as int).drop_first() =~= dates@.skip(i + 1));
                        if i + 1 < dates@.len() {
                            assert(before + (opt_state_seq(found) + transitions_of(
                                self.pins(),
                                name_id@,
                                pin_id,
                                dates@.skip(i + 1),
                                (how_many - i - 1) as nat,
                            )) =~= out@ + transitions_of(
                                self.pins(),
                                name_id@,
                                pin_id,
                                dates@.skip(i + 1),
                                (how_many - i - 1) as nat,
                            ));
                        } else {
                            assert(dates@.skip(i + 1).len() == 0);
                            assert(before + opt_state_seq(found) =~= out@ + transitions_of(
                                self.pins(),
                                name_id@,
                                pin_id,
                                dates@.skip(i + 1),
                                (how_many - i - 1) as nat,
                            ));
                        }
                    }
                    i = i + 1;
                }
                proof {
                    if i == how_many {
                        assert(transitions_of(
                            self.pins(),
                            name_id@,
                            pin_id,
                            dates@.skip(i as int),
                            0,
                        ) =~= Seq::<PinState>::empty());
                    } else {
                        assert(dates@.skip(i as int).len() == 0);
                    }
                    assert(out@ + Seq::<PinState>::empty() =~= out@);
                }
                Some(out)
            },
        }
    }

    /// The most recent state-change instant of a stream: when the
    /// current run of equal states began. `None` if never observed.
    pub fn get_last_changed_pin_state(&self, name_id: &str, pin_id: u8) -> (r: Option<PinState>)
        ensures
            r == last_changed_spec(self.pins(), name_id@, pin_id),
    {
        match self.get_pin_changes(name_id, pin_id, 1) {
            None => None,
            Some(arr) => if arr.len() > 0 {
                Some(arr[0])
            } else {
                None
            },
        }
    }
}

/// A filter selects nothing from a log none of whose rows qualify.
proof fn lemma_selected_none(rows: Seq<PinRecord>, f: PinFilter)
    requires
        forall|i: int| 0 <= i < rows.len() ==> !accepts(f, #[trigger] rows[i]),
    ensures
        selected(rows, f) is None,
    decreases rows.len(),
{
    if rows.len() > 0 {
        assert(rows.drop_last() =~= rows.take(rows.len() - 1));
        assert(forall|i: int|
            0 <= i < rows.drop_last().len() ==> !accepts(f, #[trigger] rows.drop_last()[i]));
        lemma_selected_none(rows.drop_last(), f);
        assert(rows[rows.len() - 1] == rows.last());
    }
}

/// No data, no fact: a stream never observed in the store has no last
/// state and no last change.
pub proof fn lemma_unobserved_stream(rows: Seq<PinRecord>, name: Seq<char>, pin: u8)
    requires
        forall|i: int| 0 <= i < rows.len() ==> !(#[trigger] rows[i]).addressed(name, pin),
    ensures
        selected_state(rows, f_latest(name, pin)) is None,
        last_changed_spec(rows, name, pin) is None,
{
    lemma_selected_none(rows, f_latest(name, pin));
}

/// Whether a temperature row belongs to a stream and falls in the window.
pub open spec fn temp_matches(r: TempRecord, name: Seq<char>, pin: u8, since: int) -> bool {
    r.name@ == name && r.pin == pin && r.dt >= since
}

/// How many temperature rows of a stream fall in the window.
pub open spec fn temp_count(rows: Seq<TempRecord>, name: Seq<char>, pin: u8, since: int) -> nat
    decreases rows.len(),
{
    if rows.len() == 0 {
        0
    } else {
        temp_count(rows.drop_last(), name, pin, since) + if temp_matches(
            rows.last(),
            name,
            pin,
            since,
        ) {
            1nat
        } else {
            0nat
        }
    }
}

/// The sum, in thousandths of a degree, of the temperature rows of a
/// stream that fall in the window.
pub open spec fn temp_sum(rows: Seq<TempRecord>, name: Seq<char>, pin: u8, since: int) -> int
    decreases rows.len(),
{
    if rows.len() == 0 {
        0
    } else {
        temp_sum(rows.drop_last(), name, pin, since) + if temp_matches(
            rows.last(),
            name,
            pin,
            since,
        ) {
            rows.last().temperature.millis as int
        } else {
            0
        }
    }
}

/// The sum of matching rows is bounded by the count times the extreme
/// values a stored temperature can hold.
proof fn lemma_temp_sum_bounds(rows: Seq<TempRecord>, name: Seq<char>, pin: u8, since: int)
    ensures
        temp_count(rows, name, pin, since) * (i32::MIN as int) <= temp_sum(rows, name, pin, since)
            <= temp_count(rows, name, pin, since) * (i32::MAX as int),
    decreases rows.len(),
{
    if rows.len() > 0 {
        lemma_temp_sum_bounds(rows.drop_last(), name, pin, since);
        let c = temp_count(rows.drop_last(), name, pin, since);
        if temp_matches(rows.last(), name, pin, since) {
            assert((c + 1) * (i32::MIN as int) == c * (i32::MIN as int) + i32::MIN as int)
                by (nonlinear_arith);
            assert((c + 1) * (i32::MAX as int) == c * (i32::MAX as int) + i32::MAX as int)
                by (nonlinear_arith);
        }
    }
}

/// The shift that keeps intermediate sums non-negative: stored values
/// lie in `i32`, so value plus shift lies in `[0, 2^32)`.
pub const TEMP_SHIFT: i64 = 0x8000_0000;

/// The smaller of two optional instants, `None` meaning no instant.
pub open spec fn opt_min_dt(a: Option<i64>, b: Option<i64>) -> Option<i64> {
    match (a, b) {
        (None, bb) => bb,
        (Some(x), None) => Some(x),
        (Some(x), Some(y)) => if x <= y {
            Some(x)
        } else {
            Some(y)
        },
    }
}

/// The instant a zone's actuator last turned on, if it is still on and
/// turned on after `since`.
pub open spec fn zone_on_candidate(
    rows: Seq<PinRecord>,
    node_name: Seq<char>,
    zone: Zone,
    since: int,
) -> Option<i64> {
    match last_changed_spec(rows, node_name, zone.control_pin) {
        Some(st) => if st.spec_is_on() && st.dt > since {
            Some(st.dt)
        } else {
            None
        },
        None => None,
    }
}

/// The earliest such instant over a node's zones.
pub open spec fn first_on_in_zones(
    rows: Seq<PinRecord>,
    node_name: Seq<char>,
    zones: Seq<Zone>,
    since: int,
) -> Option<i64>
    decreases zones.len(),
{
    if zones.len() == 0 {
        None
    } else {
        opt_min_dt(
            first_on_in_zones(rows, node_name, zones.drop_last(), since),
            zone_on_candidate(rows, node_name, zones.last(), since),
        )
    }
}

/// The earliest such instant over every zone of every node: when the
/// oldest still-standing demand began.
pub open spec fn first_zone_on_spec(
    rows: Seq<PinRecord>,
    nodes: Seq<crate::config::ControlNode>,
    since: int,
) -> Option<i64>
    decreases nodes.len(),
{
    if nodes.len() == 0 {
        None
    } else {
        opt_min_dt(
            first_zone_on_spec(rows, nodes.drop_last(), since),
            first_on_in_zones(rows, nodes.last().name@, nodes.last().zones@, since),
        )
    }
}

/// In a well-formed log, the most recent state-change instant carries a
/// usable timestamp.
pub proof fn lemma_last_changed_wf(rows: Seq<PinRecord>, name: Seq<char>, pin: u8)
    requires
        pin_rows_wf(rows),
    ensures
        match last_changed_spec(rows, name, pin) {
            Some(st) => 0 <= st.dt <= MAX_TIMESTAMP,
            None => true,
        },
{
    match selected(rows, f_latest(name, pin)) {
        None => {},
        Some(r0) => {
            match selected(rows, f_latest_with_before(name, pin, !r0.on(), r0.dt as int)) {
                None => {
                    let dates = seq![(r0.on(), r0.dt)] + change_dates_from(
                        rows,
                        name,
                        pin,
                        r0.on(),
                        r0.dt,
                        1,
                    );
                    assert(dates =~= seq![(r0.on(), r0.dt)]);
                    assert(change_dates(rows, name, pin, 2) == Some(dates));
                    let f = f_earliest_until(name, pin, dates[0].0, dates[0].1 as int);
                    assert(transitions_of(rows, name, pin, dates, 1) == opt_state_seq(
                        selected_state(rows, f),
                    ));
                    lemma_selected_props(rows, f);
                    match selected(rows, f) {
                        None => {},
                        Some(r) => {
                            let i = choose|i: int| 0 <= i < rows.len() && rows[i] == r;
                            assert(0 <= rows[i].dt <= MAX_TIMESTAMP);
                        },
                    }
                },
                Some(r1) => {
                    let dates = seq![(r0.on(), r0.dt)] + (seq![(r1.on(), r1.dt)]
                        + change_dates_from(rows, name, pin, r1.on(), r1.dt, 0));
                    assert(dates =~= seq![(r0.on(), r0.dt), (r1.on(), r1.dt)]);
                    assert(change_dates(rows, name, pin, 2) == Some(dates));
                    let f = f_earliest_between(name, pin, dates[0].0, dates[1].1 as int, dates[0].1 as int);
                    assert(dates.drop_first() =~= seq![(r1.on(), r1.dt)]);
                    assert(transitions_of(rows, name, pin, dates.drop_first(), 0)
                        =~= Seq::<PinState>::empty());
                    assert(transitions_of(rows, name, pin, dates, 1) =~= opt_state_seq(
                        selected_state(rows, f),
                    ));
                    lemma_selected_props(rows, f);
                    match selected(rows, f) {
                        None => {},
                        Some(r) => {
                            let i = choose|i: int| 0 <= i < rows.len() && rows[i] == r;
                            assert(0 <= rows[i].dt <= MAX_TIMESTAMP);
                        },
                    }
                },
            }
        },
    }
}

/// In a well-formed log, a first-demand instant is a usable timestamp.
proof fn lemma_first_on_in_zones_wf(
    rows: Seq<PinRecord>,
    node_name: Seq<char>,
    zones: Seq<Zone>,
    since: int,
)
    requires
        pin_rows_wf(rows),
    ensures
        match first_on_in_zones(rows, node_name, zones, since) {
            Some(d) => 0 <= d <= MAX_TIMESTAMP,
            None => true,
        },
    decreases zones.len(),
{
    if zones.len() > 0 {
        lemma_first_on_in_zones_wf(rows, node_name, zones.drop_last(), since);
        lemma_last_changed_wf(rows, node_name, zones.last().control_pin);
    }
}

/// In a well-formed log, the overall first-demand instant is usable.
pub proof fn lemma_first_zone_on_wf(
    rows: Seq<PinRecord>,
    nodes: Seq<crate::config::ControlNode>,
    since: int,
)
    requires
        pin_rows_wf(rows),
    ensures
        match first_zone_on_spec(rows, nodes, since) {
            Some(d) => 0 <= d <= MAX_TIMESTAMP,
            None => true,
        },
    decreases nodes.len(),
{
    if nodes.len() > 0 {
        lemma_first_zone_on_wf(rows, nodes.drop_last(), since);
        lemma_first_on_in_zones_wf(rows, nodes.last().name@, nodes.last().zones@, since);
    }
}

/// The smaller of two optional instants, `None` meaning no instant.
fn opt_min_exec(a: Option<i64>, b: Option<i64>) -> (r: Option<i64>)
    ensures
        r == opt_min_dt(a, b),
{
    match (a, b) {
        (None, bb) => bb,
        (Some(x), None) => Some(x),
        (Some(x), Some(y)) => if x <= y {
            Some(x)
        } else {
            Some(y)
        },
    }
}

impl PinStateRepository {
    /// The arithmetic mean, rounded down, of all temperature readings
    /// of a stream with timestamp at or after `since`; `None` exactly
    /// when there is no such reading, which callers must treat
    /// differently from a reading of zero degrees.
    pub fn get_average_temperature(&self, name_id: &str, pin_id: u8, since: i64) -> (r: Option<
        Temperature,
    >)
        ensures
            match r {
                None => temp_count(self.temps(), name_id@, pin_id, since as int) == 0,
                Some(t) => temp_count(self.temps(), name_id@, pin_id, since as int) > 0 && t.millis as int
                    == temp_sum(self.temps(), name_id@, pin_id, since as int) / (temp_count(
                    self.temps(),
                    name_id@,
                    pin_id,
                    since as int,
                ) as int),
            },
    {
        let rows = &self.temp_rows;
        let n = rows.len();
        let mut count: usize = 0;
        let mut sum_shifted: u128 = 0;
        assert(rows@.take(0) =~= Seq::<TempRecord>::empty());
        for i in 0..n
            invariant
                n == rows@.len(),
                rows@ == self.temps(),
                count <= i <= n,
                count == temp_count(rows@.take(i as int), name_id@, pin_id, since as int),
                sum_shifted as int == temp_sum(rows@.take(i as int), name_id@, pin_id, since as int) + (
                count as int) * (TEMP_SHIFT as int),
                sum_shifted as int <= (count as int) * 0x1_0000_0000,
        {
            let row = &rows[i];
            assert(rows@.take(i + 1).drop_last() =~= rows@.take(i as int));
            assert(rows@.take(i + 1).last() == rows@[i as int]);
            if str_eq_str(name_id, &row.name) && row.pin == pin_id && row.dt >= since {
                let shifted: u128 = ((row.temperature.millis as i64) + TEMP_SHIFT) as u128;
                sum_shifted = sum_shifted + shifted;
                count = count + 1;
            }
        }
        assert(rows@.take(n as int) =~= rows@);
        if count == 0 {
            None
        } else {
            let ghost big_sum = temp_sum(self.temps(), name_id@, pin_id, since as int);
            let ghost c = count as int;
            let avg_shifted: u128 = sum_shifted / (count as u128);
            proof {
                lemma_temp_sum_bounds(self.temps(), name_id@, pin_id, since as int);
                assert(avg_shifted as int == (big_sum + c * (TEMP_SHIFT as int)) / c);
                lemma_hoist_over_denominator(big_sum, TEMP_SHIFT as int, c as nat);
                assert(avg_shifted as int == big_sum / c + TEMP_SHIFT);
                assert(c * (i32::MIN as int) <= big_sum <= c * (i32::MAX as int));
                lemma_div_is_ordered(c * (i32::MIN as int), big_sum, c);
                lemma_div_multiples_vanish(i32::MIN as int, c);
                lemma_div_is_ordered(big_sum, c * (i32::MAX as int), c);
                lemma_div_multiples_vanish(i32::MAX as int, c);
                assert(i32::MIN as int <= big_sum / c <= i32::MAX as int);
            }
            let millis: i64 = (avg_shifted as i64) - TEMP_SHIFT;
            Some(Temperature { millis: millis as i32 })
        }
    }

    /// Across every zone's actuator in every node, the earliest "turned
    /// on and still on" instant later than `since`: how long continuous
    /// demand has existed. `None` when no zone demands.
    pub fn get_first_zone_on_dt(&self, control_nodes: &ControlNodes, since: i64) -> (r: Option<
        i64,
    >)
        ensures
            r == first_zone_on_spec(self.pins(), control_nodes@, since as int),
            self.wf() ==> match r {
                Some(d) => 0 <= d <= MAX_TIMESTAMP,
                None => true,
            },
    {
        let mut acc: Option<i64> = None;
        let n = control_nodes.len();
        assert(control_nodes@.take(0) =~= Seq::<crate::config::ControlNode>::empty());
        for i in 0..n
            invariant
                n == control_nodes@.len(),
                acc == first_zone_on_spec(self.pins(), control_nodes@.take(i as int), since as int),
        {
            let node = &control_nodes[i];
            let m = node.zones.len();
            let mut zacc: Option<i64> = None;
            assert(node.zones@.take(0) =~= Seq::<Zone>::empty());
            for j in 0..m
                invariant
                    m == control_nodes@[i as int].zones@.len(),
                    0 <= i < control_nodes@.len(),
                    node == &control_nodes@[i as int],
                    zacc == first_on_in_zones(
                        self.pins(),
                        control_nodes@[i as int].name@,
                        control_nodes@[i as int].zones@.take(j as int),
                        since as int,
                    ),
            {
                let zone = &node.zones[j];
                assert(node.zones@.take(j + 1).drop_last() =~= node.zones@.take(j as int));
                assert(node.zones@.take(j + 1).last() == node.zones@[j as int]);
                let cand: Option<i64> = match self.get_last_changed_pin_state(
                    node.name.as_str(),
                    zone.control_pin,
                ) {
                    Some(st) => if st.is_on() && st.dt > since {
                        Some(st.dt)
                    } else {
                        None
                    },
                    None => None,
                };
                zacc = opt_min_exec(zacc, cand);
            }
            assert(node.zones@.take(m as int) =~= node.zones@);
            assert(control_nodes@.take(i + 1).drop_last() =~= control_nodes@.take(i as int));
            assert(control_nodes@.take(i + 1).last() == control_nodes@[i as int]);
            acc = opt_min_exec(acc, zacc);
        }
        assert(control_nodes@.take(n as int) =~= control_nodes@);
        proof {
            if self.wf() {
                lemma_first_zone_on_wf(self.pins(), control_nodes@, since as int);
            }
        }
        acc
    }
}

/// Whether a string slice and an owned string hold the same characters.
fn str_eq_str(a: &str, b: &String) -> (r: bool)
    ensures
        r == (a@ == b@),
{
    a.to_owned() == *b
}

/// A log that holds one stream in time order: every row belongs to the
/// `(name, pin)` stream and timestamps strictly increase.
pub open spec fn sorted_stream(rows: Seq<PinRecord>, name: Seq<char>, pin: u8) -> bool {
    &&& forall|i: int| 0 <= i < rows.len() ==> (#[trigger] rows[i]).addressed(name, pin)
    &&& forall|i: int, j: int| 0 <= i < j < rows.len() ==> rows[i].dt < rows[j].dt
}

/// Where the maximal run of consecutive equal-state rows containing
/// row `i` begins.
pub open spec fn run_start_of(rows: Seq<PinRecord>, i: int) -> int
    decreases i,
{
    if i <= 0 {
        0
    } else if rows[i - 1].on() != rows[i].on() {
        i
    } else {
        run_start_of(rows, i - 1)
    }
}

/// A run start bounds its row from below, every row of the run shares
/// its state, and the row just before the run holds the opposite state.
proof fn lemma_run_start_of(rows: Seq<PinRecord>, i: int)
    requires
        0 <= i < rows.len(),
    ensures
        0 <= run_start_of(rows, i) <= i,
        forall|k: int|
            run_start_of(rows, i) <= k <= i ==> (#[trigger] rows[k]).on() == rows[i].on(),
        run_start_of(rows, i) > 0 ==> rows[run_start_of(rows, i) - 1].on() != rows[i].on(),
    decreases i,
{
    if i > 0 && rows[i - 1].on() == rows[i].on() {
        lemma_run_start_of(rows, i - 1);
    }
}

/// The largest index a filter accepts, or `-1` when it accepts none.
spec fn last_accepted(rows: Seq<PinRecord>, f: PinFilter) -> int
    decreases rows.len(),
{
    if rows.len() == 0 {
        -1
    } else if accepts(f, rows.last()) {
        rows.len() - 1
    } else {
        last_accepted(rows.drop_last(), f)
    }
}

/// The smallest index a filter accepts, or `-1` when it accepts none.
spec fn first_accepted(rows: Seq<PinRecord>, f: PinFilter) -> int
    decreases rows.len(),
{
    if rows.len() == 0 {
        -1
    } else {
        let rest = first_accepted(rows.drop_last(), f);
        if rest >= 0 {
            rest
        } else if accepts(f, rows.last()) {
            rows.len() - 1
        } else {
            -1
        }
    }
}

/// What `last_accepted` finds: an accepted index with nothing accepted
/// beyond it, or no accepted index at all.
proof fn lemma_last_accepted_props(rows: Seq<PinRecord>, f: PinFilter)
    ensures
        last_accepted(rows, f) == -1 || last_accepted(rows, f) >= 0,
        last_accepted(rows, f) == -1 ==> forall|k: int|
            0 <= k < rows.len() ==> !accepts(f, #[trigger] rows[k]),
        last_accepted(rows, f) >= 0 ==> {
            &&& 0 <= last_accepted(rows, f) < rows.len()
            &&& accepts(f, rows[last_accepted(rows, f)])
            &&& forall|k: int|
                last_accepted(rows, f) < k < rows.len() ==> !accepts(f, #[trigger] rows[k])
        },
    decreases rows.len(),
{
    if rows.len() > 0 {
        lemma_last_accepted_props(rows.drop_last(), f);
        assert(rows[rows.len() - 1] == rows.last());
        assert(forall|k: int|
            0 <= k < rows.len() - 1 ==> rows.drop_last()[k] == #[trigger] rows[k]);
    }
}

/// What `first_accepted` finds: an accepted index with nothing
/// accepted before it, or no accepted index at all.
proof fn lemma_first_accepted_props(rows: Seq<PinRecord>, f: PinFilter)
    ensures
        first_accepted(rows, f) == -1 || first_accepted(rows, f) >= 0,
        first_accepted(rows, f) == -1 ==> forall|k: int|
            0 <= k < rows.len() ==> !accepts(f, #[trigger] rows[k]),
        first_accepted(rows, f) >= 0 ==> {
            &&& 0 <= first_accepted(rows, f) < rows.len()
            &&& accepts(f, rows[first_accepted(rows, f)])
            &&& forall|k: int| 0 <= k < first_accepted(rows, f) ==> !accepts(f, #[trigger] rows[k])
        },
    decreases rows.len(),
{
    if rows.len() > 0 {
        lemma_first_accepted_props(rows.drop_last(), f);
        assert(rows[rows.len() - 1] == rows.last());
        assert(forall|k: int|
            0 <= k < rows.len() - 1 ==> rows.drop_last()[k] == #[trigger] rows[k]);
    }
}

/// On a log whose timestamps strictly increase, a descending selection
/// picks the row at the largest accepted index.
proof fn lemma_selected_desc_is_last(rows: Seq<PinRecord>, f: PinFilter)
    requires
        f.desc,
        forall|i: int, j: int| 0 <= i < j < rows.len() ==> rows[i].dt < rows[j].dt,
    ensures
        selected(rows, f) == if last_accepted(rows, f) >= 0 {
            Some(rows[last_accepted(rows, f)])
        } else {
            None::<PinRecord>
        },
    decreases rows.len(),
{
    if rows.len() > 0 {
        assert(forall|i: int, j: int|
            0 <= i < j < rows.drop_last().len() ==> #[trigger] rows.drop_last()[i].dt
                < #[trigger] rows.drop_last()[j].dt);
        lemma_selected_desc_is_last(rows.drop_last(), f);
        lemma_last_accepted_props(rows.drop_last(), f);
        assert(rows[rows.len() - 1] == rows.last());
        let m = last_accepted(rows.drop_last(), f);
        if accepts(f, rows.last()) && m >= 0 {
            assert(rows.drop_last()[m] == rows[m]);
            assert(rows[m].dt < rows[rows.len() - 1].dt);
        }
    }
}

/// A run start never lies beyond its row.
proof fn lemma_run_start_le(rows: Seq<PinRecord>, i: int)
    requires
        i >= 0,
    ensures
        0 <= run_start_of(rows, i) <= i,
    decreases i,
{
    if i > 0 && rows[i - 1].on() == rows[i].on() {
        lemma_run_start_le(rows, i - 1);
    }
}

/// The derived states of the first sample of each maximal run of
/// consecutive equal-state rows, most recent run first, starting from
/// the run that contains row `i` and walking back to the oldest run.
pub open spec fn run_firsts(rows: Seq<PinRecord>, i: int) -> Seq<PinState>
    decreases i + 1,
    via run_firsts_decreases
{
    if i < 0 {
        Seq::empty()
    } else {
        seq![rows[run_start_of(rows, i)].to_state()] + run_firsts(rows, run_start_of(rows, i) - 1)
    }
}

#[via_fn]
proof fn run_firsts_decreases(rows: Seq<PinRecord>, i: int) {
    if i >= 0 {
        lemma_run_start_le(rows, i);
    }
}

/// The first `cap` entries of a sequence of states, or all of them
/// when fewer exist.
pub open spec fn clip_states(s: Seq<PinState>, cap: nat) -> Seq<PinState> {
    if cap <= s.len() {
        s.take(cap as int)
    } else {
        s
    }
}

/// On a sorted stream, the latest opposite-state row before row `b` is
/// the row just before `b`'s run — or nothing, when `b`'s run reaches
/// back to the first row.
proof fn lemma_selected_opposite_before(rows: Seq<PinRecord>, name: Seq<char>, pin: u8, b: int)
    requires
        sorted_stream(rows, name, pin),
        0 <= b < rows.len(),
    ensures
        selected(rows, f_latest_with_before(name, pin, !rows[b].on(), rows[b].dt as int)) == {
            let s = run_start_of(rows, b);
            if s > 0 {
                Some(rows[s - 1])
            } else {
                None::<PinRecord>
            }
        },
{
    let f = f_latest_with_before(name, pin, !rows[b].on(), rows[b].dt as int);
    let s = run_start_of(rows, b);
    lemma_run_start_of(rows, b);
    assert(forall|k: int|
        0 <= k < rows.len() ==> (accepts(f, #[trigger] rows[k]) <==> (rows[k].on() != rows[b].on()
            && rows[k].dt < rows[b].dt)));
    lemma_selected_desc_is_last(rows, f);
    lemma_last_accepted_props(rows, f);
    let m = last_accepted(rows, f);
    if s > 0 {
        assert(rows[s - 1].dt < rows[b].dt);
        assert(accepts(f, rows[s - 1]));
        assert(forall|k: int| s - 1 < k < rows.len() ==> !accepts(f, #[trigger] rows[k])) by {
            assert(forall|k: int| s <= k <= b ==> (#[trigger] rows[k]).on() == rows[b].on());
            assert(forall|k: int| b <= k < rows.len() ==> rows[b].dt <= (#[trigger] rows[k]).dt);
        }
        if m == -1 {
            assert(!accepts(f, rows[s - 1]));
        }
        assert(m >= 0);
        if m < s - 1 {
            assert(!accepts(f, rows[s - 1]));
        }
        assert(m == s - 1);
    } else {
        assert(forall|k: int| 0 <= k < rows.len() ==> !accepts(f, #[trigger] rows[k])) by {
            assert(forall|k: int| 0 <= k <= b ==> (#[trigger] rows[k]).on() == rows[b].on());
            assert(forall|k: int| b <= k < rows.len() ==> rows[b].dt <= (#[trigger] rows[k]).dt);
        }
        if m >= 0 {
            assert(!accepts(f, rows[m]));
        }
        assert(m == -1);
    }
}

/// On a sorted stream, the earliest same-state row in the period from
/// just after the previous run to row `b` is the first row of `b`'s
/// run.
proof fn lemma_selected_run_between(rows: Seq<PinRecord>, name: Seq<char>, pin: u8, b: int)
    requires
        sorted_stream(rows, name, pin),
        0 <= b < rows.len(),
        run_start_of(rows, b) > 0,
    ensures
        selected(
            rows,
            f_earliest_between(
                name,
                pin,
                rows[b].on(),
                rows[run_start_of(rows, b) - 1].dt as int,
                rows[b].dt as int,
            ),
        ) == Some(rows[run_start_of(rows, b)]),
{
    let s = run_start_of(rows, b);
    lemma_run_start_of(rows, b);
    let f = f_earliest_between(name, pin, rows[b].on(), rows[s - 1].dt as int, rows[b].dt as int);
    assert(forall|k: int|
        0 <= k < rows.len() ==> (accepts(f, #[trigger] rows[k]) <==> (rows[k].on() == rows[b].on()
            && rows[s - 1].dt < rows[k].dt && rows[k].dt <= rows[b].dt)));
    lemma_selected_asc_is_first(rows, f);
    lemma_first_accepted_props(rows, f);
    let m = first_accepted(rows, f);
    assert(rows[s - 1].dt < rows[s].dt);
    assert(rows[s].dt <= rows[b].dt || s == b);
    assert(rows[s].on() == rows[b].on());
    assert(accepts(f, rows[s]));
    assert(forall|k: int| 0 <= k < s ==> !accepts(f, #[trigger] rows[k])) by {
        assert(forall|k: int| 0 <= k <= s - 1 ==> (#[trigger] rows[k]).dt <= rows[s - 1].dt);
    }
    if m == -1 {
        assert(!accepts(f, rows[s]));
    }
    assert(m >= 0);
    if m > s {
        assert(!accepts(f, rows[s]));
    }
    assert(m == s);
}

/// On a sorted stream whose row `b` belongs to the oldest run, the
/// earliest same-state row at or before `b` is the very first row.
proof fn lemma_selected_run_until(rows: Seq<PinRecord>, name: Seq<char>, pin: u8, b: int)
    requires
        sorted_stream(rows, name, pin),
        0 <= b < rows.len(),
        run_start_of(rows, b) == 0,
    ensures
        selected(rows, f_earliest_until(name, pin, rows[b].on(), rows[b].dt as int)) == Some(
            rows[0],
        ),
{
    lemma_run_start_of(rows, b);
    let f = f_earliest_until(name, pin, rows[b].on(), rows[b].dt as int);
    assert(forall|k: int|
        0 <= k < rows.len() ==> (accepts(f, #[trigger] rows[k]) <==> (rows[k].on() == rows[b].on()
            && rows[k].dt <= rows[b].dt)));
    lemma_selected_asc_is_first(rows, f);
    lemma_first_accepted_props(rows, f);
    let m = first_accepted(rows, f);
    assert(rows[0].on() == rows[b].on());
    assert(rows[0].dt <= rows[b].dt);
    assert(accepts(f, rows[0]));
    if m == -1 {
        assert(!accepts(f, rows[0]));
    }
    if m > 0 {
        assert(!accepts(f, rows[0]));
    }
    assert(m == 0);
}

/// The backward walk over a sorted stream reconstructs exactly the
/// runs: starting the walk at row `b` with `cap` steps yields the
/// first samples of the `cap` most recent maximal runs at or before
/// `b`, or of all of them when fewer exist.
proof fn lemma_walk_collapses(rows: Seq<PinRecord>, name: Seq<char>, pin: u8, b: int, cap: nat)
    requires
        sorted_stream(rows, name, pin),
        0 <= b < rows.len(),
    ensures
        transitions_of(
            rows,
            name,
            pin,
            seq![(rows[b].on(), rows[b].dt)] + change_dates_from(
                rows,
                name,
                pin,
                rows[b].on(),
                rows[b].dt,
                cap,
            ),
            cap,
        ) == clip_states(run_firsts(rows, b), cap),
    decreases b,
{
    lemma_run_start_of(rows, b);
    let s = run_start_of(rows, b);
    let dates = seq![(rows[b].on(), rows[b].dt)] + change_dates_from(
        rows,
        name,
        pin,
        rows[b].on(),
        rows[b].dt,
        cap,
    );
    if cap == 0 {
        assert(transitions_of(rows, name, pin, dates, 0) =~= Seq::<PinState>::empty());
        assert(run_firsts(rows, b).take(0) =~= Seq::<PinState>::empty());
    } else {
        lemma_selected_opposite_before(rows, name, pin, b);
        if s == 0 {
            assert(change_dates_from(rows, name, pin, rows[b].on(), rows[b].dt, cap) =~= Seq::<(
                bool,
                i64,
            )>::empty());
            assert(dates =~= seq![(rows[b].on(), rows[b].dt)]);
            assert(dates[0].0 == rows[b].on());
            assert(dates[0].1 == rows[b].dt);
            lemma_selected_run_until(rows, name, pin, b);
            assert(transitions_of(rows, name, pin, dates, cap) =~= seq![rows[0].to_state()]);
            assert(run_firsts(rows, -1) == Seq::<PinState>::empty());
            assert(run_firsts(rows, b) == seq![rows[0].to_state()] + run_firsts(rows, -1));
            assert(run_firsts(rows, b) =~= seq![rows[0].to_state()]);
            if cap <= 1 {
                assert(run_firsts(rows, b).take(cap as int) =~= seq![rows[0].to_state()]);
            }
            assert(clip_states(run_firsts(rows, b), cap) =~= seq![rows[0].to_state()]);
        } else {
            let x1 = (rows[s - 1].on(), rows[s - 1].dt);
            let rest = change_dates_from(
                rows,
                name,
                pin,
                rows[s - 1].on(),
                rows[s - 1].dt,
                (cap - 1) as nat,
            );
            assert(change_dates_from(rows, name, pin, rows[b].on(), rows[b].dt, cap) == seq![x1]
                + rest);
            assert(dates.len() >= 2);
            assert(dates[0] == (rows[b].on(), rows[b].dt));
            assert((seq![x1] + rest)[0] == x1);
            assert(dates[1] == x1);
            lemma_selected_run_between(rows, name, pin, b);
            assert(dates.drop_first() =~= seq![x1] + rest);
            lemma_walk_collapses(rows, name, pin, s - 1, (cap - 1) as nat);
            assert(transitions_of(rows, name, pin, dates, cap) == seq![rows[s].to_state()]
                + clip_states(run_firsts(rows, s - 1), (cap - 1) as nat));
            let t = run_firsts(rows, s - 1);
            assert(run_firsts(rows, b) == seq![rows[s].to_state()] + t);
            if cap <= t.len() + 1 {
                assert((seq![rows[s].to_state()] + t).take(cap as int) =~= seq![rows[s].to_state()]
                    + t.take(cap - 1));
            }
            assert(clip_states(seq![rows[s].to_state()] + t, cap) =~= seq![rows[s].to_state()]
                + clip_states(t, (cap - 1) as nat));
        }
    }
}

/// The transition reconstruction collapses consecutive same-state
/// duplicates into a single transition. Over a log that holds one
/// stream in strictly increasing time order, the reconstructed history
/// is exactly the first sample of each maximal run of consecutive
/// equal-state readings, most recent run first, cut off at `how_many`.
pub proof fn lemma_pin_changes_collapse_runs(
    rows: Seq<PinRecord>,
    name: Seq<char>,
    pin: u8,
    how_many: nat,
)
    requires
        rows.len() > 0,
        sorted_stream(rows, name, pin),
    ensures
        pin_changes_spec(rows, name, pin, how_many) == Some(
            clip_states(run_firsts(rows, rows.len() - 1), how_many),
        ),
{
    let n = rows.len() as int;
    let f = f_latest(name, pin);
    assert(rows[n - 1] == rows.last());
    assert(accepts(f, rows.last()));
    assert(last_accepted(rows, f) == n - 1);
    lemma_selected_desc_is_last(rows, f);
    assert(selected(rows, f) == Some(rows[n - 1]));
    lemma_walk_collapses(rows, name, pin, n - 1, how_many);
}

/// On a log whose timestamps strictly increase, an ascending selection
/// picks the row at the smallest accepted index.
proof fn lemma_selected_asc_is_first(rows: Seq<PinRecord>, f: PinFilter)
    requires
        !f.desc,
        forall|i: int, j: int| 0 <= i < j < rows.len() ==> rows[i].dt < rows[j].dt,
    ensures
        selected(rows, f) == if first_accepted(rows, f) >= 0 {
            Some(rows[first_accepted(rows, f)])
        } else {
            None::<PinRecord>
        },
    decreases rows.len(),
{
    if rows.len() > 0 {
        assert(forall|i: int, j: int|
            0 <= i < j < rows.drop_last().len() ==> #[trigger] rows.drop_last()[i].dt
                < #[trigger] rows.drop_last()[j].dt);
        lemma_selected_asc_is_first(rows.drop_last(), f);
        lemma_first_accepted_props(rows.drop_last(), f);
        assert(rows[rows.len() - 1] == rows.last());
        let m = first_accepted(rows.drop_last(), f);
        if accepts(f, rows.last()) && m >= 0 {
            assert(rows.drop_last()[m] == rows[m]);
            assert(rows[m].dt < rows[rows.len() - 1].dt);
        }
    }
}

} // verus!
