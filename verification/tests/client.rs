use cubic::client::application::{Application, Effect, Event, State, WindowEvent};
use cubic::client::render::context::{AlphaMode, Context, PresentMode, TextureUsage};
use cubic::common::runtime::{
    start, Handle, HandleInterface, TaskHandle, TaskPanicked,
};
use cubic::task_result::result_channel;
use tokio::sync::oneshot::Sender;

type App = Application<&'static str, u32>;

fn new_app() -> (App, Handle) {
    let (handle, _supervisor) = start();
    (Application::new(handle.clone()), handle)
}

fn starting_app() -> (App, Handle, Sender<u32>) {
    let (mut app, handle) = new_app();
    assert_eq!(app.resumed(), Ok(vec![Effect::CreateWindow, Effect::LaunchContext]));
    assert!(matches!(app.state, State::Working));
    let (tx, rx) = result_channel();
    app.window_opened("window", TaskHandle::new(rx));
    assert!(matches!(app.state, State::Starting("window", _)));
    (app, handle, tx)
}

fn active_app() -> (App, Handle) {
    let (mut app, handle, tx) = starting_app();
    tx.send(9).unwrap();
    assert_eq!(
        app.user_event(Event::ContextReady),
        Ok(vec![Effect::ResizeContext, Effect::RequestRedraw])
    );
    (app, handle)
}

#[test]
fn a_window_becomes_active_and_is_drawn() {
    let (mut app, mut handle) = active_app();
    assert_eq!(app.active(), Some((&"window", &9)));
    for _ in 0..3 {
        assert_eq!(
            app.window_event(WindowEvent::RedrawRequested),
            Ok(vec![Effect::RequestRedraw, Effect::Draw])
        );
        assert_eq!(app.active(), Some((&"window", &9)));
    }
    assert!(!handle.should_stop());
}

#[test]
fn closing_the_window_terminates() {
    let (mut app, mut handle) = active_app();
    assert_eq!(app.window_event(WindowEvent::CloseRequested), Ok(vec![Effect::ExitLoop]));
    assert!(matches!(app.state, State::Terminated));
    assert!(app.active().is_none());
    assert!(handle.should_stop());
}

#[test]
fn closing_terminates_from_every_state() {
    let (mut app, mut handle) = new_app();
    assert_eq!(app.user_event(Event::Close), Ok(vec![Effect::ExitLoop]));
    assert!(matches!(app.state, State::Terminated));
    assert!(handle.should_stop());

    let (mut app, mut handle, _tx) = starting_app();
    assert_eq!(app.exiting(), Ok(vec![Effect::ExitLoop]));
    assert!(matches!(app.state, State::Terminated));
    assert!(handle.should_stop());

    let (mut app, mut handle) = new_app();
    app.state = State::Working;
    assert_eq!(app.exiting(), Ok(vec![Effect::ExitLoop]));
    assert!(matches!(app.state, State::Terminated));
    assert!(handle.should_stop());
}

#[test]
fn a_terminated_application_only_exits_again() {
    let (mut app, mut handle) = new_app();
    assert!(app.exiting().is_ok());
    assert_eq!(app.resumed(), Ok(vec![]));
    assert_eq!(app.user_event(Event::ContextReady), Ok(vec![]));
    assert_eq!(app.user_event(Event::Draw), Ok(vec![]));
    assert_eq!(app.exiting(), Ok(vec![Effect::ExitLoop]));
    assert!(matches!(app.state, State::Terminated));
    assert!(handle.should_stop());
}

#[test]
fn a_window_is_opened_once() {
    let (mut app, _handle) = active_app();
    assert_eq!(app.resumed(), Ok(vec![]));
    assert_eq!(app.active(), Some((&"window", &9)));
    let (mut app, _handle, _tx) = starting_app();
    assert_eq!(app.resumed(), Ok(vec![]));
    assert!(matches!(app.state, State::Starting("window", _)));
}

/// How many windows and frames the effects ask for.
fn counted(effects: &[Effect]) -> (usize, usize) {
    let windows = effects.iter().filter(|effect| **effect == Effect::CreateWindow).count();
    let frames = effects.iter().filter(|effect| **effect == Effect::Draw).count();
    (windows, frames)
}

/// Lives through `events`, with contexts that are made at once.
fn live(events: &[Event]) -> Vec<Effect> {
    let (mut app, _handle) = new_app();
    let mut done = Vec::new();
    for event in events {
        let effects = app.user_event(*event).unwrap();
        if effects.contains(&Effect::LaunchContext) {
            let (tx, rx) = result_channel();
            tx.send(9).unwrap();
            app.window_opened("window", TaskHandle::new(rx));
        }
        done.extend(effects);
    }
    done
}

#[test]
fn a_life_has_one_window_if_it_is_opened_before_it_is_closed() {
    assert_eq!(counted(&live(&[])), (0, 0));
    assert_eq!(counted(&live(&[Event::Draw, Event::ContextReady])), (0, 0));
    assert_eq!(counted(&live(&[Event::Close, Event::Resumed, Event::Draw])), (0, 0));
    let unready = [Event::Draw, Event::Resumed, Event::Draw, Event::Resumed, Event::Close];
    assert_eq!(counted(&live(&unready)), (1, 0));
    let all = [
        Event::Resumed,
        Event::ContextReady,
        Event::Draw,
        Event::Resumed,
        Event::Draw,
        Event::Close,
        Event::Resumed,
        Event::Draw,
    ];
    assert_eq!(counted(&live(&all)), (1, 2));
}

#[test]
fn a_frame_is_drawn_after_its_context_was_configured() {
    let done = live(&[Event::Resumed, Event::Draw, Event::ContextReady, Event::Draw]);
    let configured = done.iter().position(|effect| *effect == Effect::ResizeContext);
    let drawn = done.iter().position(|effect| *effect == Effect::Draw);
    assert_eq!((configured, drawn), (Some(2), Some(5)));
}

#[test]
fn events_out_of_turn_change_nothing() {
    let (mut app, _handle) = new_app();
    assert_eq!(app.user_event(Event::Draw), Ok(vec![]));
    assert_eq!(app.user_event(Event::ContextReady), Ok(vec![]));
    assert!(matches!(app.state, State::New));

    let (mut app, _handle, _tx) = starting_app();
    assert_eq!(app.window_event(WindowEvent::RedrawRequested), Ok(vec![]));
    assert!(matches!(app.state, State::Starting("window", _)));

    let (mut app, _handle) = active_app();
    assert_eq!(app.user_event(Event::ContextReady), Ok(vec![]));
    assert_eq!(app.window_event(WindowEvent::Other), Ok(vec![]));
    assert_eq!(app.active(), Some((&"window", &9)));
}

#[test]
fn a_context_that_panicked_fails_the_start() {
    let (mut app, _handle, tx) = starting_app();
    drop(tx);
    assert_eq!(app.process_event(Event::ContextReady), Err(TaskPanicked));
    assert!(matches!(app.state, State::Working));
}

#[test]
fn what_the_context_task_gave_decides() {
    let (mut app, _handle) = new_app();
    assert_eq!(
        app.context_joined("other", Ok(4)),
        Ok(vec![Effect::ResizeContext, Effect::RequestRedraw])
    );
    assert_eq!(app.active(), Some((&"other", &4)));
    assert_eq!(app.context_joined("other", Err(TaskPanicked)), Err(TaskPanicked));
    assert!(app.active().is_none());
}

#[test]
fn the_surface_takes_the_preferred_format() {
    let context = Context::new(&vec!['b', 'a']);
    let config = context.resize(640, 480);
    assert_eq!(config.usage, TextureUsage::RenderAttachment);
    assert_eq!(config.format, 'b');
    assert_eq!((config.width, config.height), (640, 480));
    assert_eq!(config.present_mode, PresentMode::Fifo);
    assert_eq!(config.desired_maximum_frame_latency, 2);
    assert_eq!(config.alpha_mode, AlphaMode::Auto);
    assert_eq!(config.view_formats, vec!['b']);
}
