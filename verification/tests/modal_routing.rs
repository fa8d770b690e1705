use runebender::modal::{is_user_input, EventKind, EventPlan, ModalHost};

#[test]
fn user_input_kinds() {
    for k in [
        EventKind::MouseUp,
        EventKind::MouseDown,
        EventKind::MouseMove,
        EventKind::KeyUp,
        EventKind::KeyDown,
        EventKind::Paste,
        EventKind::Wheel,
        EventKind::Zoom,
    ] {
        assert!(is_user_input(&k));
    }
    for k in [EventKind::ShowModal, EventKind::DismissModal, EventKind::Other] {
        assert!(!is_user_input(&k));
    }
}

#[test]
fn new_host_shows_no_modal() {
    let host: ModalHost<u8, u8> = ModalHost::new(7);
    assert_eq!(host.child, 7);
    assert!(host.modal.is_none());
}

#[test]
fn show_opens_a_modal_once() {
    let mut host: ModalHost<&str, &str> = ModalHost::new("child");
    let plan = host.event(&EventKind::ShowModal, || "first");
    assert!(plan.open_modal && plan.children_changed && plan.handled);
    assert!(!plan.to_modal && !plan.to_child);
    assert_eq!(host.modal, Some("first"));
    let mut built = false;
    let plan = host.event(&EventKind::ShowModal, || {
        built = true;
        "second"
    });
    assert!(!plan.open_modal && !plan.children_changed && plan.handled);
    assert!(!built);
    assert_eq!(host.modal, Some("first"));
}

#[test]
fn dismiss_closes_the_modal() {
    let mut host: ModalHost<&str, &str> = ModalHost::new("child");
    let plan = host.event(&EventKind::DismissModal, || "unused");
    assert_eq!(
        plan,
        EventPlan {
            to_modal: false,
            to_child: false,
            open_modal: false,
            close_modal: false,
            children_changed: false,
            handled: true,
        }
    );
    host.event(&EventKind::ShowModal, || "m");
    let plan = host.event(&EventKind::DismissModal, || "unused");
    assert!(plan.close_modal && plan.children_changed && plan.handled);
    assert!(host.modal.is_none());
    assert_eq!(host.child, "child");
}

#[test]
fn input_goes_to_the_modal_alone_while_shown() {
    let mut host: ModalHost<&str, &str> = ModalHost::new("child");
    let plan = host.plan_event(&EventKind::MouseDown);
    assert!(!plan.to_modal && plan.to_child && !plan.handled);
    host.event(&EventKind::ShowModal, || "m");
    let plan = host.plan_event(&EventKind::KeyDown);
    assert!(plan.to_modal && !plan.to_child && !plan.handled);
}

#[test]
fn other_events_go_to_both_while_shown() {
    let mut host: ModalHost<&str, &str> = ModalHost::new("child");
    let plan = host.plan_event(&EventKind::Other);
    assert!(!plan.to_modal && plan.to_child);
    host.event(&EventKind::ShowModal, || "m");
    let plan = host.event(&EventKind::Other, || "unused");
    assert!(plan.to_modal && plan.to_child && !plan.handled && !plan.open_modal);
    assert_eq!(host.modal, Some("m"));
}

#[test]
fn shown_modal_keeps_input_until_dismissed() {
    let mut host: ModalHost<&str, &str> = ModalHost::new("child");
    host.event(&EventKind::ShowModal, || "m");
    for k in [EventKind::KeyDown, EventKind::Other, EventKind::ShowModal, EventKind::MouseMove] {
        let plan = host.event(&k, || "other");
        assert!(!(is_user_input(&k) && plan.to_child));
        assert_eq!(host.modal, Some("m"));
    }
    host.event(&EventKind::DismissModal, || "unused");
    assert!(host.plan_event(&EventKind::KeyDown).to_child);
}
