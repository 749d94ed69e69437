//! The state behind the window: what was measured, what is being measured and
//! what the window shows of it.
//!
//! A measurement is only ever started by the button or by the automatic mode
//! that the user has switched on.
use crate::speedtest::{NetworkEnvironment, SpeedTestRecord};
use crate::text::{decimal, decimal_reads_back, number, push_decimal};
use vstd::prelude::*;
use vstd::string::*;

verus! {

/// Seconds between two automatic measurements: one hour.
pub const AUTO_INTERVAL_SECS: u64 = 3600;

/// How many of the latest measurements the window shows.
pub const SHOWN_RECORDS: usize = 5;

/// What a measurement reports to the window.
#[derive(Debug)]
pub enum GuiEvent {
    /// A measurement has begun.
    MeasurementStarted,
    /// A measurement is over: its record, or what went wrong.
    MeasurementFinished(Result<SpeedTestRecord, String>),
}

/// The records of the measurements that succeeded, in order.
pub open spec fn succeeded(events: Seq<GuiEvent>) -> Seq<SpeedTestRecord>
    decreases events.len(),
{
    if events.len() == 0 {
        seq![]
    } else {
        let earlier = succeeded(events.drop_last());
        match events.last() {
            GuiEvent::MeasurementFinished(Ok(record)) => earlier.push(record),
            _ => earlier,
        }
    }
}

/// What the last measurement that failed reported; `before` where none did.
pub open spec fn last_failure(before: Option<String>, events: Seq<GuiEvent>) -> Option<String>
    decreases events.len(),
{
    if events.len() == 0 {
        before
    } else {
        match events.last() {
            GuiEvent::MeasurementFinished(Err(error)) => Some(error),
            _ => last_failure(before, events.drop_last()),
        }
    }
}

/// A measurement is running if the last event is the beginning of one; without
/// an event nothing changes.
pub open spec fn running(before: bool, events: Seq<GuiEvent>) -> bool {
    if events.len() == 0 {
        before
    } else {
        events.last() is MeasurementStarted
    }
}

/// What is to be done about the automatic measurements.
#[derive(Debug, Clone, Copy, PartialEq, Eq, Structural)]
pub enum AutoAction {
    /// Start a series, in place of one that runs.
    Start,
    /// Stop the series that runs.
    Stop,
    /// Nothing runs, and nothing has to.
    Nothing,
}

/// Whether a series of automatic measurements runs once `action` was taken.
pub open spec fn series_runs(before: bool, action: AutoAction) -> bool {
    match action {
        AutoAction::Start => true,
        AutoAction::Stop => false,
        AutoAction::Nothing => before,
    }
}

/// Something that happens to the window.
pub enum Moment {
    /// What the measurements have reported is taken in.
    Drained(Seq<GuiEvent>),
    /// The button is pressed.
    Pressed,
    /// The automatic mode is switched on or off.
    Switched(bool),
}

/// The part of the state that decides on measurements.
pub struct Control {
    /// A measurement is running.
    pub measuring: bool,
    /// A series of automatic measurements runs.
    pub series: bool,
}

impl Control {
    /// The state of a window that has just opened.
    pub open spec fn at_rest() -> Control {
        Control { measuring: false, series: false }
    }

    /// A measurement, or a series of them, has to be started.
    pub open spec fn starts(self, moment: Moment) -> bool {
        match moment {
            Moment::Drained(_) => false,
            Moment::Pressed => !self.measuring,
            Moment::Switched(enabled) => enabled,
        }
    }

    /// What follows.
    pub open spec fn after(self, moment: Moment) -> Control {
        match moment {
            Moment::Drained(events) => Control {
                measuring: running(self.measuring, events),
                series: self.series,
            },
            Moment::Pressed => Control { measuring: true, series: self.series },
            Moment::Switched(enabled) => Control { measuring: self.measuring, series: enabled },
        }
    }
}

/// How things stand after `moments`, from the opening of the window on.
pub open spec fn control_after(moments: Seq<Moment>) -> Control
    decreases moments.len(),
{
    if moments.len() == 0 {
        Control::at_rest()
    } else {
        control_after(moments.drop_last()).after(moments.last())
    }
}

/// A measurement, or a series of them, is started at the moment `i`.
pub open spec fn started_at(moments: Seq<Moment>, i: int) -> bool {
    0 <= i < moments.len() && control_after(moments.take(i)).starts(moments[i])
}

/// The state behind the window.
#[derive(Debug)]
pub struct GuiState {
    pub history: Vec<SpeedTestRecord>,
    pub environment: Option<NetworkEnvironment>,
    pub measuring: bool,
    pub last_error: Option<String>,
    /// Set exactly while a series of automatic measurements runs.
    pub auto_enabled: bool,
}

/// What the window shows.
#[derive(Debug)]
pub struct Screen {
    /// The interfaces of the machine, line by line.
    pub environment: Vec<String>,
    /// Whether the button can be pressed.
    pub button_enabled: bool,
    /// Whether a measurement is shown as running.
    pub busy: bool,
    /// Whether the automatic mode is shown as on.
    pub auto_enabled: bool,
    /// The line about the last error.
    pub error: Option<String>,
    /// The heading above the latest measurements.
    pub history_heading: String,
    /// The latest measurements, the newest first.
    pub recent: Vec<String>,
}

/// The line that counts the interfaces.
pub open spec fn environment_heading(env: NetworkEnvironment) -> Seq<char> {
    "検出されたネットワークインターフェース: 合計"@ + decimal(env.interface_count as nat) + "個(有線"@
        + decimal(env.ethernet_count as nat) + "・無線"@ + decimal(env.wifi_count as nat)
        + "・その他"@ + decimal(env.other_count as nat) + ")"@
}

/// `lines` is the heading and then one line for each interface.
pub open spec fn lists_environment(env: NetworkEnvironment, lines: Seq<String>) -> bool {
    &&& lines.len() == 1 + env.interface_names@.len()
    &&& lines[0]@ == environment_heading(env)
    &&& forall|i: int|
        0 <= i < env.interface_names@.len() ==> (#[trigger] lines[1 + i])@ == "  - "@
            + env.interface_names@[i]@
}

/// `lines` are the latest records of `history`, the newest first, and no more
/// than the window shows.
pub open spec fn lists_recent(history: Seq<SpeedTestRecord>, lines: Seq<String>) -> bool {
    &&& lines.len() == (if history.len() < SHOWN_RECORDS {
        history.len() as int
    } else {
        SHOWN_RECORDS as int
    })
    &&& forall|i: int|
        0 <= i < lines.len() ==> (#[trigger] lines[i])@ == history[history.len() - 1 - i].line()
}

/// `screen` shows `state`.
pub open spec fn shows(state: GuiState, screen: Screen) -> bool {
    &&& match state.environment {
        Some(env) => lists_environment(env, screen.environment@),
        None => screen.environment@.len() == 0,
    }
    &&& screen.button_enabled == !state.measuring
    &&& screen.busy == state.measuring
    &&& screen.auto_enabled == state.auto_enabled
    &&& match state.last_error {
        Some(error) => screen.error matches Some(line) && line@ == "測定エラー: "@ + error@,
        None => screen.error is None,
    }
    &&& screen.history_heading@ == "測定履歴("@ + decimal(state.history@.len())
        + "件、直近5件を表示):"@
    &&& lists_recent(state.history@, screen.recent@)
}

/// The interfaces of a machine, line by line.
fn environment_lines(env: &NetworkEnvironment) -> (lines: Vec<String>)
    ensures
        lists_environment(*env, lines@),
{
    let mut heading = "検出されたネットワークインターフェース: 合計".to_string();
    push_decimal(&mut heading, env.interface_count);
    heading.append("個(有線");
    push_decimal(&mut heading, env.ethernet_count);
    heading.append("・無線");
    push_decimal(&mut heading, env.wifi_count);
    heading.append("・その他");
    push_decimal(&mut heading, env.other_count);
    heading.append(")");
    let mut lines: Vec<String> = Vec::new();
    lines.push(heading);
    let mut i: usize = 0;
    while i < env.interface_names.len()
        invariant
            i <= env.interface_names@.len(),
            lines@.len() == 1 + i,
            lines@[0]@ == environment_heading(*env),
            forall|j: int|
                0 <= j < i ==> (#[trigger] lines@[1 + j])@ == "  - "@ + env.interface_names@[j]@,
        decreases env.interface_names@.len() - i,
    {
        let mut line = "  - ".to_string();
        line.append(env.interface_names[i].as_str());
        lines.push(line);
        i = i + 1;
    }
    lines
}

/// The latest measurements, the newest first.
fn recent_lines(history: &Vec<SpeedTestRecord>) -> (lines: Vec<String>)
    ensures
        lists_recent(history@, lines@),
{
    let mut lines: Vec<String> = Vec::new();
    while lines.len() < SHOWN_RECORDS && lines.len() < history.len()
        invariant
            lines@.len() <= SHOWN_RECORDS,
            lines@.len() <= history@.len(),
            forall|i: int|
                0 <= i < lines@.len() ==> (#[trigger] lines@[i])@ == history@[history@.len() - 1
                    - i].line(),
        decreases history@.len() - lines@.len(),
    {
        lines.push(history[history.len() - 1 - lines.len()].summary());
    }
    lines
}

impl GuiState {
    /// The part of the state that decides on measurements.
    pub open spec fn control(&self) -> Control {
        Control { measuring: self.measuring, series: self.auto_enabled }
    }

    /// The state of a window that has just opened.
    pub fn new(history: Vec<SpeedTestRecord>, environment: Option<NetworkEnvironment>) -> (res:
        Self)
        ensures
            res.history == history,
            res.environment == environment,
            !res.measuring,
            res.last_error is None,
            !res.auto_enabled,
            res.control() == Control::at_rest(),
    {
        GuiState { history, environment, measuring: false, last_error: None, auto_enabled: false }
    }

    /// The button was pressed. Returns whether a measurement has to be
    /// started: none is while another one runs.
    pub fn start_measurement(&mut self) -> (start: bool)
        ensures
            start == !old(self).measuring,
            start == old(self).control().starts(Moment::Pressed),
            final(self).control() == old(self).control().after(Moment::Pressed),
            *final(self) == (if start {
                GuiState { measuring: true, last_error: None, ..*old(self) }
            } else {
                *old(self)
            }),
    {
        if self.measuring {
            return false;
        }
        self.measuring = true;
        self.last_error = None;
        true
    }

    /// The automatic mode was switched on or off.
    pub fn set_auto(&mut self, enabled: bool) -> (action: AutoAction)
        ensures
            *final(self) == (GuiState { auto_enabled: enabled, ..*old(self) }),
            action == (if enabled {
                AutoAction::Start
            } else if old(self).auto_enabled {
                AutoAction::Stop
            } else {
                AutoAction::Nothing
            }),
            series_runs(old(self).auto_enabled, action) == final(self).auto_enabled,
            action == AutoAction::Start <==> old(self).control().starts(Moment::Switched(enabled)),
            final(self).control() == old(self).control().after(Moment::Switched(enabled)),
    {
        let was_enabled = self.auto_enabled;
        self.auto_enabled = enabled;
        if enabled {
            AutoAction::Start
        } else if was_enabled {
            AutoAction::Stop
        } else {
            AutoAction::Nothing
        }
    }

    /// Takes in what the measurements have reported since the last time.
    pub fn drain_events(&mut self, events: Vec<GuiEvent>)
        ensures
            final(self).history@ == old(self).history@ + succeeded(events@),
            final(self).measuring == running(old(self).measuring, events@),
            final(self).last_error == last_failure(old(self).last_error, events@),
            final(self).environment == old(self).environment,
            final(self).auto_enabled == old(self).auto_enabled,
            final(self).control() == old(self).control().after(Moment::Drained(events@)),
    {
        let ghost all = events@;
        for event in iter: events.into_iter()
            invariant
                iter.seq() == all,
                self.history@ == old(self).history@ + succeeded(iter.seq().take(iter.index())),
                self.measuring == running(old(self).measuring, iter.seq().take(iter.index())),
                self.last_error == last_failure(
                    old(self).last_error,
                    iter.seq().take(iter.index()),
                ),
                self.environment == old(self).environment,
                self.auto_enabled == old(self).auto_enabled,
        {
            proof {
                let seen = iter.seq().take(iter.index() + 1);
                assert(seen.drop_last() =~= iter.seq().take(iter.index()));
                assert(seen.last() == event);
            }
            match event {
                GuiEvent::MeasurementStarted => {
                    self.measuring = true;
                },
                GuiEvent::MeasurementFinished(result) => {
                    self.measuring = false;
                    match result {
                        Ok(record) => {
                            self.history.push(record);
                        },
                        Err(error) => {
                            self.last_error = Some(error);
                        },
                    }
                },
            }
        }
        assert(all.take(all.len() as int) =~= all);
    }

    /// The window is drawn anew: what the measurements have reported is taken
    /// in first, then it is said what is shown.
    pub fn update(&mut self, events: Vec<GuiEvent>) -> (res: Screen)
        ensures
            final(self).history@ == old(self).history@ + succeeded(events@),
            final(self).last_error == last_failure(old(self).last_error, events@),
            final(self).environment == old(self).environment,
            final(self).control() == old(self).control().after(Moment::Drained(events@)),
            shows(*final(self), res),
    {
        self.drain_events(events);
        self.screen()
    }

    /// What the window shows.
    pub fn screen(&self) -> (res: Screen)
        ensures
            shows(*self, res),
    {
        let environment: Vec<String> = match &self.environment {
            Some(env) => environment_lines(env),
            None => Vec::new(),
        };
        let error: Option<String> = match &self.last_error {
            Some(error) => {
                let mut line = "測定エラー: ".to_string();
                line.append(error.as_str());
                Some(line)
            },
            None => None,
        };
        let mut history_heading = "測定履歴(".to_string();
        push_decimal(&mut history_heading, self.history.len());
        history_heading.append("件、直近5件を表示):");
        Screen {
            environment,
            button_enabled: !self.measuring,
            busy: self.measuring,
            auto_enabled: self.auto_enabled,
            error,
            history_heading,
            recent: recent_lines(&self.history),
        }
    }
}

/// It makes no difference at which moments the events are taken in: in two
/// parts they come to what they come to at once.
pub proof fn draining_in_parts(
    before: bool,
    error: Option<String>,
    first: Seq<GuiEvent>,
    second: Seq<GuiEvent>,
)
    ensures
        succeeded(first + second) == succeeded(first) + succeeded(second),
        running(before, first + second) == running(running(before, first), second),
        last_failure(error, first + second) == last_failure(last_failure(error, first), second),
    decreases second.len(),
{
    if second.len() == 0 {
        assert(first + second =~= first);
    } else {
        draining_in_parts(before, error, first, second.drop_last());
        assert((first + second).drop_last() =~= first + second.drop_last());
        assert((first + second).last() == second.last());
    }
}

/// Measurements that begin or succeed do not clear an error.
pub proof fn error_outlives_success(error: Option<String>, events: Seq<GuiEvent>)
    requires
        forall|i: int|
            0 <= i < events.len() ==> !(#[trigger] events[i] matches GuiEvent::MeasurementFinished(
                Err(_),
            )),
    ensures
        last_failure(error, events) == error,
    decreases events.len(),
{
    if events.len() > 0 {
        assert(events.last() == events[events.len() - 1]);
        error_outlives_success(error, events.drop_last());
    }
}

/// Nothing is measured unasked: whatever the measurements report, a start is
/// always a press of the button while nothing is measured, or the automatic
/// mode being switched on.
pub proof fn every_start_is_asked_for(moments: Seq<Moment>, i: int)
    requires
        started_at(moments, i),
    ensures
        moments[i] == Moment::Switched(true) || (moments[i] == Moment::Pressed && !control_after(
            moments.take(i),
        ).measuring),
{
}

/// Who neither presses the button nor switches the automatic mode on never
/// sees a measurement started, nor a series run.
pub proof fn without_consent_nothing_is_measured(moments: Seq<Moment>)
    requires
        forall|i: int|
            0 <= i < moments.len() ==> (#[trigger] moments[i]) is Drained || moments[i]
                == Moment::Switched(false),
    ensures
        forall|i: int| !#[trigger] started_at(moments, i),
        !control_after(moments).series,
    decreases moments.len(),
{
    if moments.len() > 0 {
        let earlier = moments.drop_last();
        assert forall|i: int| 0 <= i < earlier.len() implies (#[trigger] earlier[i]) is Drained
            || earlier[i] == Moment::Switched(false) by {
            assert(earlier[i] == moments[i]);
        }
        without_consent_nothing_is_measured(earlier);
        assert(moments.last() == moments[moments.len() - 1]);
    }
    assert forall|i: int| !#[trigger] started_at(moments, i) by {
        if started_at(moments, i) {
            every_start_is_asked_for(moments, i);
        }
    }
}

/// The button starts one measurement at a time: between two presses that start
/// one, the end of a measurement was reported.
pub proof fn presses_start_one_at_a_time(moments: Seq<Moment>, i: int, j: int)
    requires
        0 <= i < j,
        started_at(moments, i),
        started_at(moments, j),
        moments[i] == Moment::Pressed,
        moments[j] == Moment::Pressed,
    ensures
        exists|k: int| i < k < j && #[trigger] reports_an_end(moments[k]),
{
    assert(moments.take(i + 1).drop_last() =~= moments.take(i));
    assert(control_after(moments.take(i + 1)).measuring);
    lemma_stays_busy(moments, i + 1, j);
}

/// The last that was reported is the end of a measurement.
pub open spec fn reports_an_end(moment: Moment) -> bool {
    moment matches Moment::Drained(events) && events.len() > 0
        && events.last() is MeasurementFinished
}

/// A measurement counts as running until its end is reported.
proof fn lemma_stays_busy(moments: Seq<Moment>, from: int, to: int)
    requires
        0 <= from <= to <= moments.len(),
        control_after(moments.take(from)).measuring,
    ensures
        control_after(moments.take(to)).measuring || exists|k: int|
            from <= k < to && #[trigger] reports_an_end(moments[k]),
    decreases to - from,
{
    if from < to {
        lemma_stays_busy(moments, from, to - 1);
        assert(moments.take(to).drop_last() =~= moments.take(to - 1));
        assert(moments.take(to).last() == moments[to - 1]);
        if reports_an_end(moments[to - 1]) {
        } else if !control_after(moments.take(to - 1)).measuring {
            let k = choose|k: int| from <= k < to - 1 && #[trigger] reports_an_end(moments[k]);
            assert(reports_an_end(moments[k]));
        }
    }
}

/// Every measurement that succeeds is kept, in order, whatever its record holds,
/// and nothing else is: the records are those of the events that report a
/// success.
pub proof fn every_success_is_kept(events: Seq<GuiEvent>)
    ensures
        succeeded(events) == events.filter(
            |e: GuiEvent| e is MeasurementFinished && e->MeasurementFinished_0 is Ok,
        ).map_values(|e: GuiEvent| e->MeasurementFinished_0->Ok_0),
    decreases events.len(),
{
    reveal(Seq::filter);
    let pred = |e: GuiEvent| e is MeasurementFinished && e->MeasurementFinished_0 is Ok;
    let record = |e: GuiEvent| e->MeasurementFinished_0->Ok_0;
    if events.len() == 0 {
        assert(events.filter(pred).map_values(record) =~= seq![]);
    } else {
        let earlier = events.drop_last();
        every_success_is_kept(earlier);
        if pred(events.last()) {
            assert(events.filter(pred) =~= earlier.filter(pred).push(events.last()));
            assert(events.filter(pred).map_values(record) =~= earlier.filter(pred).map_values(
                record,
            ).push(record(events.last())));
        } else {
            assert(events.filter(pred) =~= earlier.filter(pred));
        }
    }
}

/// One success adds its record to the history and nothing else, a failure or a
/// beginning adds nothing.
pub proof fn one_event_adds_its_record(
    events: Seq<GuiEvent>,
    record: SpeedTestRecord,
    error: String,
)
    ensures
        succeeded(seq![]) == Seq::<SpeedTestRecord>::empty(),
        succeeded(events.push(GuiEvent::MeasurementFinished(Ok(record)))) == succeeded(events).push(
            record,
        ),
        succeeded(events.push(GuiEvent::MeasurementFinished(Err(error)))) == succeeded(events),
        succeeded(events.push(GuiEvent::MeasurementStarted)) == succeeded(events),
{
    assert(events.push(GuiEvent::MeasurementFinished(Ok(record))).drop_last() =~= events);
    assert(events.push(GuiEvent::MeasurementFinished(Err(error))).drop_last() =~= events);
    assert(events.push(GuiEvent::MeasurementStarted).drop_last() =~= events);
}

/// The error that is kept is that of the last failure.
pub proof fn last_failure_is_kept(
    before: Option<String>,
    events: Seq<GuiEvent>,
    i: int,
    error: String,
)
    requires
        0 <= i < events.len(),
        events[i] == GuiEvent::MeasurementFinished(Err(error)),
        forall|j: int|
            i < j < events.len() ==> !((#[trigger] events[j]) is MeasurementFinished
                && events[j]->MeasurementFinished_0 is Err),
    ensures
        last_failure(before, events) == Some(error),
    decreases events.len(),
{
    if i < events.len() - 1 {
        assert(events.last() == events[events.len() - 1]);
        last_failure_is_kept(before, events.drop_last(), i, error);
    }
}

/// What was reported last decides whether a measurement counts as running, and
/// without a report nothing changes.
pub proof fn last_report_decides(
    before: bool,
    events: Seq<GuiEvent>,
    result: Result<SpeedTestRecord, String>,
)
    ensures
        running(before, seq![]) == before,
        running(before, events.push(GuiEvent::MeasurementStarted)),
        !running(before, events.push(GuiEvent::MeasurementFinished(result))),
{
}

/// One measurement more comes to the top of the list, the others move down, and
/// no more than five are shown.
pub proof fn newest_comes_first(
    history: Seq<SpeedTestRecord>,
    record: SpeedTestRecord,
    lines: Seq<String>,
    more: Seq<String>,
    i: int,
)
    requires
        lists_recent(history, lines),
        lists_recent(history.push(record), more),
        0 <= i < lines.len(),
        i < 4,
    ensures
        more[0]@ == record.line(),
        more[i + 1]@ == lines[i]@,
        more.len() == (if history.len() >= 4 {
            5
        } else {
            history.len() + 1
        }),
{
    assert(history.push(record)[history.len() - 1 - i] == history[history.len() - 1 - i]);
}

/// All of a short history is shown: up to five measurements, each on a line of
/// its own, the newest first.
pub proof fn short_history_is_shown_whole(
    history: Seq<SpeedTestRecord>,
    lines: Seq<String>,
    i: int,
)
    requires
        lists_recent(history, lines),
        history.len() <= 5,
        0 <= i < history.len(),
    ensures
        lines.len() == history.len(),
        lines[lines.len() - 1 - i]@ == history[i].line(),
{
}

/// The window tells the number of measurements and the error in full, and can
/// start a measurement exactly while none runs.
pub proof fn screen_tells_the_state(state: GuiState, screen: Screen)
    requires
        shows(state, screen),
    ensures
        exists|digits: Seq<char>|
            screen.history_heading@ == "測定履歴("@ + digits + "件、直近5件を表示):"@
                && #[trigger] number(digits) == state.history@.len(),
        state.last_error matches Some(error) ==> screen.error matches Some(line) && line@
            == "測定エラー: "@ + error@,
        state.last_error is None ==> screen.error is None,
        screen.button_enabled != state.measuring,
        screen.busy == state.measuring,
        screen.auto_enabled == state.auto_enabled,
        lists_recent(state.history@, screen.recent@),
        state.environment is None ==> screen.environment@.len() == 0,
        state.environment matches Some(env) ==> lists_environment(env, screen.environment@),
{
    decimal_reads_back(state.history@.len());
}

/// Every interface has its line, and the four numbers stand in the heading.
pub proof fn every_interface_is_listed(env: NetworkEnvironment, lines: Seq<String>, i: int)
    requires
        lists_environment(env, lines),
    ensures
        lines.len() == env.interface_names@.len() + 1,
        0 <= i < env.interface_names@.len() ==> lines[i + 1]@ == "  - "@
            + env.interface_names@[i]@,
        exists|all: Seq<char>, wired: Seq<char>, wireless: Seq<char>, other: Seq<char>|
            lines[0]@ == "検出されたネットワークインターフェース: 合計"@ + all + "個(有線"@ + wired + "・無線"@
                + wireless + "・その他"@ + other + ")"@ && #[trigger] number(all)
                == env.interface_count && #[trigger] number(wired) == env.ethernet_count
                && #[trigger] number(wireless) == env.wifi_count && #[trigger] number(other)
                == env.other_count,
{
    decimal_reads_back(env.interface_count as nat);
    decimal_reads_back(env.ethernet_count as nat);
    decimal_reads_back(env.wifi_count as nat);
    decimal_reads_back(env.other_count as nat);
    if 0 <= i < env.interface_names@.len() {
        assert(lines[1 + i]@ == "  - "@ + env.interface_names@[i]@);
    }
}

} // verus!
