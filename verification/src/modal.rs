//! A widget host that may show a modal dialog over its child: which events
//! open and close the modal, and which widgets each event reaches.

use vstd::prelude::*;

verus! {

/// The events a modal host tells apart.
#[derive(Clone, Copy, PartialEq, Eq, Debug, Structural)]
pub enum EventKind {
    MouseUp,
    MouseDown,
    MouseMove,
    KeyUp,
    KeyDown,
    Paste,
    Wheel,
    Zoom,
    /// The command that asks the host to show a modal.
    ShowModal,
    /// The command that asks the host to dismiss its modal.
    DismissModal,
    /// Any other event: timers, other commands, window events.
    Other,
}

/// Whether the event comes from the user's input devices.
pub open spec fn user_input(event: EventKind) -> bool {
    match event {
        EventKind::MouseUp | EventKind::MouseDown | EventKind::MouseMove | EventKind::KeyUp
        | EventKind::KeyDown | EventKind::Paste | EventKind::Wheel | EventKind::Zoom => true,
        _ => false,
    }
}

/// Whether the event comes from the user's input devices.
pub fn is_user_input(event: &EventKind) -> (res: bool)
    ensures
        res == user_input(*event),
{
    match event {
        EventKind::MouseUp | EventKind::MouseDown | EventKind::MouseMove | EventKind::KeyUp
        | EventKind::KeyDown | EventKind::Paste | EventKind::Wheel | EventKind::Zoom => true,
        _ => false,
    }
}

/// What handling one event takes.
#[derive(Clone, Copy, PartialEq, Eq, Debug, Structural)]
pub struct EventPlan {
    /// The event goes to the modal (before the child, when both get it).
    pub to_modal: bool,
    /// The event goes to the child.
    pub to_child: bool,
    /// A modal is built and shown.
    pub open_modal: bool,
    /// The shown modal is dismissed.
    pub close_modal: bool,
    /// The set of child widgets changed.
    pub children_changed: bool,
    /// The event is marked as handled.
    pub handled: bool,
}

/// The plan for an event, while a modal is shown (`showing`) or not. A show
/// request opens a modal only when none is shown, a dismiss request closes
/// one only when one is shown; both are handled by the host and go to no
/// widget. User input goes to the modal alone when one is shown, else to the
/// child. Every other event goes to the modal, when one is shown, and to the
/// child.
pub open spec fn plan_for(showing: bool, event: EventKind) -> EventPlan {
    match event {
        EventKind::ShowModal => EventPlan {
            to_modal: false,
            to_child: false,
            open_modal: !showing,
            close_modal: false,
            children_changed: !showing,
            handled: true,
        },
        EventKind::DismissModal => EventPlan {
            to_modal: false,
            to_child: false,
            open_modal: false,
            close_modal: showing,
            children_changed: showing,
            handled: true,
        },
        _ => EventPlan {
            to_modal: showing,
            to_child: !(showing && user_input(event)),
            open_modal: false,
            close_modal: false,
            children_changed: false,
            handled: false,
        },
    }
}

/// Whether a modal is shown after an event, from whether one was shown
/// before: a show request leaves one shown, a dismiss request leaves none,
/// and other events change nothing.
pub open spec fn showing_after(showing: bool, event: EventKind) -> bool {
    match event {
        EventKind::ShowModal => true,
        EventKind::DismissModal => false,
        _ => showing,
    }
}

/// Whether a modal is shown after the first `n` events of `events`.
pub open spec fn showing_after_run(showing: bool, events: Seq<EventKind>, n: int) -> bool
    decreases n,
{
    if n <= 0 {
        showing
    } else {
        showing_after(showing_after_run(showing, events, n - 1), events[n - 1])
    }
}

/// A widget that has a child and may show a modal that obscures it.
pub struct ModalHost<C, M> {
    pub child: C,
    pub modal: Option<M>,
}

impl<C, M> ModalHost<C, M> {
    /// A host for `child`, showing no modal.
    pub fn new(child: C) -> (res: Self)
        ensures
            res.child == child,
            res.modal is None,
    {
        ModalHost { child, modal: None }
    }

    /// The plan for `event` in the host's current state.
    pub fn plan_event(&self, event: &EventKind) -> (plan: EventPlan)
        ensures
            plan == plan_for(self.modal is Some, *event),
    {
        let showing = self.modal.is_some();
        match event {
            EventKind::ShowModal => EventPlan {
                to_modal: false,
                to_child: false,
                open_modal: !showing,
                close_modal: false,
                children_changed: !showing,
                handled: true,
            },
            EventKind::DismissModal => EventPlan {
                to_modal: false,
                to_child: false,
                open_modal: false,
                close_modal: showing,
                children_changed: showing,
                handled: true,
            },
            _ => {
                let input = is_user_input(event);
                EventPlan {
                    to_modal: showing,
                    to_child: !(showing && input),
                    open_modal: false,
                    close_modal: false,
                    children_changed: false,
                    handled: false,
                }
            },
        }
    }

    /// Handles `event`: opens a modal built by `build` or dismisses the shown
    /// one, as the plan says, and returns the plan, whose deliveries are left
    /// to the caller. `build` is called only when a modal is opened.
    pub fn event<F: FnOnce() -> M>(&mut self, event: &EventKind, build: F) -> (plan: EventPlan)
        requires
            call_requires(build, ()),
        ensures
            plan == plan_for(old(self).modal is Some, *event),
            final(self).child == old(self).child,
            plan.open_modal ==> (final(self).modal matches Some(m) && call_ensures(build, (), m)),
            plan.close_modal ==> final(self).modal is None,
            !plan.open_modal && !plan.close_modal ==> final(self).modal == old(self).modal,
            (final(self).modal is Some) == showing_after(old(self).modal is Some, *event),
    {
        let plan = self.plan_event(event);
        if plan.open_modal {
            let m = build();
            self.modal = Some(m);
        } else if plan.close_modal {
            self.modal = None;
        }
        plan
    }
}

/// How a modal host routes events. User input reaches exactly one widget:
/// the modal when one is shown, else the child. Show and dismiss requests
/// reach no widget and are the only events the host marks as handled. Every
/// event reaches the modal exactly when one is shown and the event is not a
/// request to the host.
pub proof fn lemma_event_routing(showing: bool, event: EventKind)
    ensures
        user_input(event) ==> plan_for(showing, event).to_modal == showing
            && plan_for(showing, event).to_child == !showing,
        plan_for(showing, event).handled <==> (event == EventKind::ShowModal || event
            == EventKind::DismissModal),
        plan_for(showing, event).to_modal <==> (showing && event != EventKind::ShowModal
            && event != EventKind::DismissModal),
        !user_input(event) && event != EventKind::ShowModal && event != EventKind::DismissModal
            ==> plan_for(showing, event).to_child,
{
}

/// Once a modal is shown, it stays shown through any run of events that has
/// no dismiss request, and no user input of that run reaches the child:
/// each such event goes to the modal instead.
pub proof fn lemma_modal_holds_input(events: Seq<EventKind>)
    requires
        forall|i: int| 0 <= i < events.len() ==> events[i] != EventKind::DismissModal,
    ensures
        forall|n: int| 0 <= n <= events.len() ==> #[trigger] showing_after_run(true, events, n),
        forall|i: int|
            0 <= i < events.len() && user_input(events[i]) ==> plan_for(
                showing_after_run(true, events, i),
                events[i],
            ).to_modal && !plan_for(#[trigger] showing_after_run(true, events, i), events[i]).to_child,
{
    assert forall|n: int| 0 <= n <= events.len() implies #[trigger] showing_after_run(
        true,
        events,
        n,
    ) by {
        lemma_run_keeps_modal(events, n);
    }
}

proof fn lemma_run_keeps_modal(events: Seq<EventKind>, n: int)
    requires
        0 <= n <= events.len(),
        forall|i: int| 0 <= i < events.len() ==> events[i] != EventKind::DismissModal,
    ensures
        showing_after_run(true, events, n),
    decreases n,
{
    if n > 0 {
        lemma_run_keeps_modal(events, n - 1);
    }
}

/// Only a show request opens a modal and only a dismiss request closes one;
/// every other event leaves whether a modal is shown as it was, and builds
/// nothing.
pub proof fn lemma_only_requests_change_modal(showing: bool, event: EventKind)
    ensures
        plan_for(showing, event).open_modal ==> event == EventKind::ShowModal && !showing,
        plan_for(showing, event).close_modal ==> event == EventKind::DismissModal && showing,
        event != EventKind::ShowModal && event != EventKind::DismissModal ==> showing_after(
            showing,
            event,
        ) == showing && !plan_for(showing, event).open_modal && !plan_for(
            showing,
            event,
        ).close_modal,
        showing_after(showing, event) == (plan_for(showing, event).open_modal || (showing
            && !plan_for(showing, event).close_modal)),
{
}

/// Opening and dismissing: a show request opens a modal only when none is
/// shown and a dismiss request closes it only when one is shown, so after a
/// show request a modal is shown and after a dismiss request none is.
pub proof fn lemma_show_dismiss(showing: bool)
    ensures
        plan_for(showing, EventKind::ShowModal).open_modal != showing,
        !plan_for(showing, EventKind::ShowModal).close_modal,
        plan_for(showing, EventKind::DismissModal).close_modal == showing,
        !plan_for(showing, EventKind::DismissModal).open_modal,
{
}

} // verus!
