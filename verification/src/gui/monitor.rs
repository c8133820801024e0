//! The monitor screen: the events that come in, and the way back to the connect form.

use std::collections::VecDeque;
use vstd::prelude::*;

use crate::adapters::text_view;
use crate::app::{applied, apply_event, AppState, CanEvent, StateView};
use crate::gui::connect::{ConnectForm, FormView};
use crate::gui::plot_view::{event_samples, with_samples, PlotState, RegistryEntryView};

verus! {

/// An event as it is taken in.
#[derive(Debug)]
pub struct IncomingEvent {
    pub event: CanEvent,
    /// The bits of the physical values of its signals, where it is a decoded frame.
    pub physical: Vec<u64>,
    /// When it is taken in, by a clock that never goes back.
    pub now_us: u64,
    /// When it is taken in, since 1970.
    pub time_us: u64,
}

impl IncomingEvent {
    /// There is a physical value for every signal.
    pub open spec fn wf(self) -> bool {
        self.event matches CanEvent::DbcSignal(f) ==> self.physical@.len() == f.values@.len()
    }
}

/// What the pending events lead to: the state, the plotted signals, and the error of the adapter
/// where one is reported. Events after such an error are left for later.
pub struct IntakeView {
    pub state: StateView,
    pub signals: Seq<RegistryEntryView>,
    pub adapter_error: Option<Seq<char>>,
    pub left: Seq<IncomingEvent>,
}

/// What the pending events lead to.
pub open spec fn intake(
    state: StateView,
    signals: Seq<RegistryEntryView>,
    events: Seq<IncomingEvent>,
) -> IntakeView
    decreases events.len(),
{
    if events.len() == 0 {
        IntakeView { state, signals, adapter_error: None, left: events }
    } else {
        let e = events[0];
        match e.event {
            CanEvent::AdapterError(text) => IntakeView {
                state,
                signals,
                adapter_error: Some(text@),
                left: events.drop_first(),
            },
            _ => intake(
                applied(state, e.event, e.now_us),
                with_samples(signals, event_samples(e.event, e.physical@, e.time_us)),
                events.drop_first(),
            ),
        }
    }
}

/// Takes in the pending events, up to an error of the adapter, which is the result. The plotted
/// signals get their samples before the event is applied to the state.
pub fn take_events(
    state: &mut AppState,
    plot: &mut PlotState,
    events: &mut VecDeque<IncomingEvent>,
) -> (r: Option<String>)
    requires
        forall|i: int| 0 <= i < old(events)@.len() ==> (#[trigger] old(events)@[i]).wf(),
    ensures
        ({
            let after = intake(old(state)@, old(plot).signals(), old(events)@);
            &&& final(state)@ == after.state
            &&& final(plot).signals() == after.signals
            &&& *final(plot) == (PlotState { registry: final(plot).registry, ..*old(plot) })
            &&& text_view(r) == after.adapter_error
            &&& final(events)@ == after.left
        }),
{
    let ghost goal = intake(state@, plot.signals(), events@);
    while events.len() > 0
        invariant
            forall|i: int| 0 <= i < events@.len() ==> (#[trigger] events@[i]).wf(),
            goal == intake(old(state)@, old(plot).signals(), old(events)@),
            intake(state@, plot.signals(), events@) == goal,
            *plot == (PlotState { registry: plot.registry, ..*old(plot) }),
        decreases events@.len(),
    {
        let ghost before = events@;
        assert(before[0].wf());
        match events.pop_front() {
            Some(e) => {
                assert(events@ =~= before.drop_first());
                assert forall|i: int| 0 <= i < events@.len() implies (#[trigger] events@[i]).wf() by {
                    assert(events@[i] == before[i + 1]);
                }
                let ghost first = e;
                assert(first == before[0]);
                match e.event {
                    CanEvent::AdapterError(text) => {
                        return Some(text);
                    },
                    ev => {
                        plot.feed_event(&ev, e.physical.as_slice(), e.time_us);
                        apply_event(state, ev, e.now_us);
                    },
                }
            },
            None => {},
        }
    }
    None
}

/// The form that the monitor goes back to, if it does: with the error of the adapter where there
/// is one, without an error on request of the user.
pub fn leave(form: ConnectForm, adapter_error: Option<String>, disconnect_clicked: bool) -> (r:
    Option<ConnectForm>)
    ensures
        r is Some == (adapter_error is Some || disconnect_clicked),
        r matches Some(f) ==> f@ == (FormView { error: text_view(adapter_error), ..form@ }),
{
    let mut form = form;
    match adapter_error {
        Some(e) => {
            form.error = Some(e);
            Some(form)
        },
        None => if disconnect_clicked {
            form.error = None;
            Some(form)
        } else {
            None
        },
    }
}

/// The events before the first error of the adapter are applied, each once and in order; the error
/// is reported, and what follows it is left.
pub proof fn law_events_until_error(
    state: StateView,
    signals: Seq<RegistryEntryView>,
    before: Seq<IncomingEvent>,
    error: IncomingEvent,
    after: Seq<IncomingEvent>,
)
    requires
        error.event is AdapterError,
        forall|i: int| 0 <= i < before.len() ==> !((#[trigger] before[i]).event is AdapterError),
    ensures
        ({
            let all = intake(state, signals, before + seq![error] + after);
            let quiet = intake(state, signals, before);
            &&& all.adapter_error == Some(error.event->AdapterError_0@)
            &&& all.left == after
            &&& all.state == quiet.state
            &&& all.signals == quiet.signals
            &&& quiet.adapter_error is None
            &&& quiet.left.len() == 0
        }),
    decreases before.len(),
{
    let events = before + seq![error] + after;
    if before.len() == 0 {
        assert(events.drop_first() =~= after);
        assert(events[0] == error);
    } else {
        let rest = before.drop_first();
        assert(events[0] == before[0]);
        assert(events.drop_first() =~= rest + seq![error] + after);
        assert forall|i: int| 0 <= i < rest.len() implies !((
        #[trigger] rest[i]).event is AdapterError) by {
            assert(rest[i] == before[i + 1]);
        }
        let e = before[0];
        law_events_until_error(
            applied(state, e.event, e.now_us),
            with_samples(signals, event_samples(e.event, e.physical@, e.time_us)),
            rest,
            error,
            after,
        );
    }
}

} // verus!
