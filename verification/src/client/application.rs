//! The client's life from the first window to the end.

use vstd::prelude::*;

use crate::common::runtime::{
    used, Handle, Stopper, TaskHandle, TaskHandleInterface, TaskPanicked,
};

verus! {

/// What the application reacts to.
#[derive(Copy, Clone, Debug, PartialEq, Eq, Structural)]
pub enum Event {
    Resumed,
    Close,
    ContextReady,
    Draw,
}

/// What the window reports, as far as the application tells it apart.
#[derive(Copy, Clone, Debug, PartialEq, Eq, Structural)]
pub enum WindowEvent {
    CloseRequested,
    RedrawRequested,
    Other,
}

/// How far the application has come, over windows `W` and render contexts `C`.
#[verifier::reject_recursive_types(C)]
pub enum State<W, C> {
    /// An event is being handled.
    Working,
    New,
    /// The window is open, and its render context is being made.
    Starting(W, TaskHandle<C>),
    Active(W, C),
    Terminated,
}

/// What the embedding program does for the application.
#[derive(Copy, Clone, Debug, PartialEq, Eq, Structural)]
pub enum Effect {
    /// Open a window.
    CreateWindow,
    /// Launch a task that makes the render context of that window and then reports it ready. The
    /// window and the task go to `window_opened`.
    LaunchContext,
    /// Configure the active context for the size of the active window.
    ResizeContext,
    /// Ask for the active window to be drawn again.
    RequestRedraw,
    /// Draw a frame with the active context.
    Draw,
    /// Leave the event loop.
    ExitLoop,
}

/// The client application. The tasks are stopped through `rt_handle`, which is not cloned: as long
/// as it stays as it is, the application has stopped nothing.
#[verifier::reject_recursive_types(C)]
pub struct Application<W, C> {
    pub rt_handle: Stopper,
    pub state: State<W, C>,
}

/// What a task that makes a context gives: with the context the application becomes active.
pub open spec fn activates<W, C>(
    window: W,
    joined: Result<C, TaskPanicked>,
    after: State<W, C>,
    r: Result<Vec<Effect>, TaskPanicked>,
) -> bool {
    match joined {
        Ok(context) => {
            &&& after == State::Active(window, context)
            &&& r matches Ok(effects)
            &&& effects@ == seq![Effect::ResizeContext, Effect::RequestRedraw]
        },
        Err(panicked) => {
            &&& after == State::<W, C>::Working
            &&& r == Err::<Vec<Effect>, TaskPanicked>(panicked)
        },
    }
}

/// The answer `r` to `event` takes the application from `before` to `after`.
pub open spec fn transition<W, C>(
    before: Application<W, C>,
    event: Event,
    after: Application<W, C>,
    r: Result<Vec<Effect>, TaskPanicked>,
) -> bool {
    match (before.state, event) {
        (_, Event::Close) => {
            &&& after.state == State::<W, C>::Terminated
            &&& after.rt_handle.stopping()
            &&& after.rt_handle.asked()
            &&& after.rt_handle.handle().async_handle_tx
                == before.rt_handle.handle().async_handle_tx
            &&& used(before.rt_handle.handle(), after.rt_handle.handle())
            &&& r matches Ok(effects)
            &&& effects@ == seq![Effect::ExitLoop]
        },
        (State::New, Event::Resumed) => {
            &&& after.state == State::<W, C>::Working
            &&& after.rt_handle == before.rt_handle
            &&& r matches Ok(effects)
            &&& effects@ == seq![Effect::CreateWindow, Effect::LaunchContext]
        },
        (State::Starting(window, task), Event::ContextReady) => {
            &&& after.rt_handle == before.rt_handle
            &&& activates(window, task.task().result, after.state, r)
        },
        (State::Active(_, _), Event::Draw) => {
            &&& after == before
            &&& r matches Ok(effects)
            &&& effects@ == seq![Effect::RequestRedraw, Effect::Draw]
        },
        _ => {
            &&& after == before
            &&& r matches Ok(effects)
            &&& effects@ == Seq::<Effect>::empty()
        },
    }
}

/// The event that a report of the window stands for.
pub open spec fn event_of(window_event: WindowEvent) -> Option<Event> {
    match window_event {
        WindowEvent::CloseRequested => Some(Event::Close),
        WindowEvent::RedrawRequested => Some(Event::Draw),
        WindowEvent::Other => None,
    }
}

/// The answer `r` to a report of the window takes the application from `before` to `after`: to a
/// report that stands for no event nothing is done.
pub open spec fn reported<W, C>(
    before: Application<W, C>,
    window_event: WindowEvent,
    after: Application<W, C>,
    r: Result<Vec<Effect>, TaskPanicked>,
) -> bool {
    match event_of(window_event) {
        Some(event) => transition(before, event, after, r),
        None => {
            &&& after == before
            &&& r matches Ok(effects)
            &&& effects@ == Seq::<Effect>::empty()
        },
    }
}

impl<W, C> Application<W, C> {
    /// An application that has not been started.
    pub fn new(rt_handle: Handle) -> (app: Self)
        ensures
            app.rt_handle.handle() == rt_handle,
            app.state == State::<W, C>::New,
        opens_invariants none
    {
        Application { rt_handle: Stopper::new(rt_handle), state: State::New }
    }

    /// Answers an event with what is to be done, in order. Fails if the task that makes the context
    /// has panicked.
    pub fn process_event(&mut self, event: Event) -> (r: Result<Vec<Effect>, TaskPanicked>)
        ensures
            transition(*old(self), event, *final(self), r),
    {
        let mut state = State::Working;
        core::mem::swap(&mut self.state, &mut state);
        match (state, event) {
            (State::New, Event::Resumed) => Ok(vec![Effect::CreateWindow, Effect::LaunchContext]),
            (State::Starting(window, handle), Event::ContextReady) => {
                let joined = handle.join();
                self.context_joined(window, joined)
            },
            (State::Active(window, context), Event::Draw) => {
                self.state = State::Active(window, context);
                Ok(vec![Effect::RequestRedraw, Effect::Draw])
            },
            (_, Event::Close) => {
                self.rt_handle.stop();
                self.state = State::Terminated;
                let effects = vec![Effect::ExitLoop];
                assert(effects@ =~= seq![Effect::ExitLoop]);
                Ok(effects)
            },
            (state, _) => {
                self.state = state;
                Ok(Vec::new())
            },
        }
    }

    /// Takes what the task that makes the context of `window` gave.
    pub fn context_joined(&mut self, window: W, joined: Result<C, TaskPanicked>) -> (r: Result<
        Vec<Effect>,
        TaskPanicked,
    >)
        ensures
            final(self).rt_handle == old(self).rt_handle,
            activates(window, joined, final(self).state, r),
    {
        match joined {
            Ok(context) => {
                self.state = State::Active(window, context);
                Ok(vec![Effect::ResizeContext, Effect::RequestRedraw])
            },
            Err(panicked) => {
                self.state = State::Working;
                Err(panicked)
            },
        }
    }

    /// Takes the window that was opened and the task that makes its context.
    pub fn window_opened(&mut self, window: W, handle: TaskHandle<C>)
        ensures
            final(self).state == State::Starting(window, handle),
            final(self).rt_handle == old(self).rt_handle,
        opens_invariants none
    {
        self.state = State::Starting(window, handle);
    }

    /// The window and the context, while the application is active.
    pub fn active(&self) -> (r: Option<(&W, &C)>)
        ensures
            match self.state {
                State::Active(window, context) => r == Some((&window, &context)),
                _ => r is None,
            },
    {
        match &self.state {
            State::Active(window, context) => Some((window, context)),
            _ => None,
        }
    }

    /// The application is (again) in the foreground.
    pub fn resumed(&mut self) -> (r: Result<Vec<Effect>, TaskPanicked>)
        ensures
            transition(*old(self), Event::Resumed, *final(self), r),
    {
        self.process_event(Event::Resumed)
    }

    /// The event loop is ending.
    pub fn exiting(&mut self) -> (r: Result<Vec<Effect>, TaskPanicked>)
        ensures
            transition(*old(self), Event::Close, *final(self), r),
    {
        self.process_event(Event::Close)
    }

    /// The window has reported something.
    pub fn window_event(&mut self, window_event: WindowEvent) -> (r: Result<
        Vec<Effect>,
        TaskPanicked,
    >)
        ensures
            reported(*old(self), window_event, *final(self), r),
    {
        let event = match window_event {
            WindowEvent::CloseRequested => Some(Event::Close),
            WindowEvent::RedrawRequested => Some(Event::Draw),
            WindowEvent::Other => None,
        };

        if let Some(event) = event {
            self.process_event(event)
        } else {
            Ok(Vec::new())
        }
    }

    /// An event was sent to the loop.
    pub fn user_event(&mut self, event: Event) -> (r: Result<Vec<Effect>, TaskPanicked>)
        ensures
            transition(*old(self), event, *final(self), r),
    {
        self.process_event(event)
    }
}

/// Whether the embedding program has what `effects[n]` needs, once the application is in `state`.
pub open spec fn can_be_done<W, C>(state: State<W, C>, effects: Seq<Effect>, n: int) -> bool {
    match effects[n] {
        Effect::CreateWindow => state is Working,
        Effect::LaunchContext => state is Working && effects.take(n).contains(Effect::CreateWindow),
        Effect::ResizeContext => state is Active,
        Effect::RequestRedraw => state is Active,
        Effect::Draw => state is Active,
        Effect::ExitLoop => state is Terminated,
    }
}

/// Whether the application passes through `states`, one event after the other, with the windows
/// that are opened on the way.
pub open spec fn history<W, C>(states: Seq<Application<W, C>>) -> bool {
    forall|i: int| 0 < i < states.len() ==> follows(states[i - 1], #[trigger] states[i])
}

/// Whether `after` comes right after `before`.
pub open spec fn follows<W, C>(before: Application<W, C>, after: Application<W, C>) -> bool {
    ||| exists|event: Event, r: Result<Vec<Effect>, TaskPanicked>|
        #[trigger] transition(before, event, after, r)
    ||| before.state is Working && after.state is Starting && after.rt_handle == before.rt_handle
}

/// Whatever is asked for can be done: a context is drawn with and resized only while there is one,
/// and its task is launched only after the window is open.
pub proof fn law_effects_can_be_done<W, C>(
    before: Application<W, C>,
    event: Event,
    after: Application<W, C>,
    r: Result<Vec<Effect>, TaskPanicked>,
)
    requires
        transition(before, event, after, r),
    ensures
        r matches Ok(effects) ==> forall|n: int|
            0 <= n < effects@.len() ==> #[trigger] can_be_done(after.state, effects@, n),
{
    if let Ok(effects) = r {
        if before.state is New && event is Resumed {
            assert(effects@.take(1)[0] == Effect::CreateWindow);
        }
    }
}

/// Closing ends the application from any state: the tasks are asked to stop and the loop is left.
pub proof fn law_close_terminates<W, C>(
    before: Application<W, C>,
    after: Application<W, C>,
    r: Result<Vec<Effect>, TaskPanicked>,
)
    requires
        transition(before, Event::Close, after, r),
    ensures
        after.state is Terminated,
        after.rt_handle.stopping(),
        r matches Ok(effects) && effects@.contains(Effect::ExitLoop),
{
    assert(seq![Effect::ExitLoop].contains(seq![Effect::ExitLoop][0]));
}

/// Nothing but closing asks the tasks to stop or leaves the loop. The application keeps the one
/// value through which it can stop them as it was, so that no other handle has learnt of a stop
/// from it.
pub proof fn law_only_close_stops<W, C>(
    before: Application<W, C>,
    event: Event,
    after: Application<W, C>,
    r: Result<Vec<Effect>, TaskPanicked>,
)
    requires
        transition(before, event, after, r),
        event != Event::Close,
    ensures
        after.rt_handle == before.rt_handle,
        after.rt_handle.asked() == before.rt_handle.asked(),
        after.state is Terminated ==> before.state is Terminated,
        r matches Ok(effects) ==> !effects@.contains(Effect::ExitLoop),
{
}

/// Of what the window reports, only a request to close asks the tasks to stop or leaves the loop,
/// and only a request to redraw has a frame drawn. Anything else, such as the mouse moving, changes
/// nothing.
pub proof fn law_only_a_close_request_stops<W, C>(
    before: Application<W, C>,
    window_event: WindowEvent,
    after: Application<W, C>,
    r: Result<Vec<Effect>, TaskPanicked>,
)
    requires
        reported(before, window_event, after, r),
    ensures
        window_event is CloseRequested ==> {
            &&& after.state is Terminated
            &&& after.rt_handle.asked()
            &&& r matches Ok(effects)
            &&& effects@.contains(Effect::ExitLoop)
        },
        !(window_event is CloseRequested) ==> {
            &&& after == before
            &&& r matches Ok(effects)
            &&& !effects@.contains(Effect::ExitLoop)
        },
        window_event is RedrawRequested && before.state is Active ==> {
            &&& r matches Ok(effects)
            &&& effects@.contains(Effect::Draw)
        },
        window_event is Other ==> {
            &&& r matches Ok(effects)
            &&& effects@.len() == 0
        },
{
    assert(seq![Effect::ExitLoop].contains(seq![Effect::ExitLoop][0]));
    let drawn = seq![Effect::RequestRedraw, Effect::Draw];
    assert(drawn.contains(drawn[1]));
}

/// An event that is not waited for changes nothing and asks for nothing: the application is brought
/// to the foreground only when new, takes a context only while one is made, and draws only while it
/// is active.
pub proof fn law_events_out_of_turn_change_nothing<W, C>(
    before: Application<W, C>,
    event: Event,
    after: Application<W, C>,
    r: Result<Vec<Effect>, TaskPanicked>,
)
    requires
        transition(before, event, after, r),
        event is Resumed ==> !(before.state is New),
        event is ContextReady ==> !(before.state is Starting),
        event is Draw ==> !(before.state is Active),
        !(event is Close),
    ensures
        after == before,
        r matches Ok(effects) && effects@.len() == 0,
{
}

/// The life of a window: a new application opens one and has its context made; with the context it
/// is active, configures the context for the window and asks to be drawn; and whenever it is drawn
/// it asks to be drawn again, first, and stays as it is. A context that is not made is told as
/// such.
pub proof fn law_window_comes_to_life<W, C>(
    new: Application<W, C>,
    resumed: Application<W, C>,
    opening: Result<Vec<Effect>, TaskPanicked>,
    window: W,
    task: TaskHandle<C>,
    starting: Application<W, C>,
    ready: Application<W, C>,
    readying: Result<Vec<Effect>, TaskPanicked>,
    drawn: Application<W, C>,
    drawing: Result<Vec<Effect>, TaskPanicked>,
)
    requires
        new.state is New,
        transition(new, Event::Resumed, resumed, opening),
        starting.state == State::Starting(window, task),
        transition(starting, Event::ContextReady, ready, readying),
        transition(ready, Event::Draw, drawn, drawing),
    ensures
        opening matches Ok(effects) && effects@.len() == 2 && effects@[0] == Effect::CreateWindow
            && effects@[1] == Effect::LaunchContext,
        task.task().result matches Ok(context) ==> {
            &&& ready.state == State::Active(window, context)
            &&& ready.rt_handle == starting.rt_handle
            &&& readying matches Ok(effects)
            &&& effects@.len() == 2
            &&& effects@[0] == Effect::ResizeContext
            &&& effects@[1] == Effect::RequestRedraw
        },
        task.task().result is Ok ==> {
            &&& drawn == ready
            &&& drawing matches Ok(effects)
            &&& effects@.len() == 2
            &&& effects@[0] == Effect::RequestRedraw
            &&& effects@[1] == Effect::Draw
        },
        task.task().result is Err ==> readying is Err && ready.state is Working,
{
}

/// An application that is not new does not become new.
proof fn lemma_new_only_first<W, C>(states: Seq<Application<W, C>>, i: int, j: int)
    requires
        history(states),
        0 <= i <= j < states.len(),
        !(states[i].state is New),
    ensures
        !(states[j].state is New),
    decreases j,
{
    if i < j {
        lemma_new_only_first(states, i, j - 1);
        assert(follows(states[j - 1], states[j]));
    }
}

/// A window is opened at most once: after one event that asked for it, no other does.
pub proof fn law_window_opens_once<W, C>(
    states: Seq<Application<W, C>>,
    i: int,
    opening: Event,
    opened: Vec<Effect>,
    j: int,
    event: Event,
    after: Application<W, C>,
    r: Result<Vec<Effect>, TaskPanicked>,
)
    requires
        history(states),
        0 <= i < j < states.len(),
        transition(states[i], opening, states[i + 1], Ok(opened)),
        opened@.contains(Effect::CreateWindow),
        transition(states[j], event, after, r),
    ensures
        r matches Ok(effects) ==> !effects@.contains(Effect::CreateWindow),
{
    lemma_new_only_first(states, i + 1, j);
}

/// An application that has ended has ended for good, and its tasks stay asked to stop.
pub proof fn law_terminated_for_good<W, C>(states: Seq<Application<W, C>>, i: int, j: int)
    requires
        history(states),
        0 <= i < j < states.len(),
        states[i].state is Terminated,
        states[i].rt_handle.stopping(),
    ensures
        states[j].state is Terminated,
        states[j].rt_handle.stopping(),
    decreases j,
{
    if i < j - 1 {
        law_terminated_for_good(states, i, j - 1);
    }
    assert(follows(states[j - 1], states[j]));
}

/// The application is active only after a context was made: the state before was active, or
/// starting with the same window.
pub proof fn law_active_after_starting<W, C>(
    before: Application<W, C>,
    event: Event,
    after: Application<W, C>,
    r: Result<Vec<Effect>, TaskPanicked>,
)
    requires
        transition(before, event, after, r),
        after.state is Active,
    ensures
        match before.state {
            State::Active(_, _) => after.state == before.state,
            State::Starting(window, task) => {
                &&& event is ContextReady
                &&& after.state->Active_0 == window
                &&& task.task().result == Ok::<C, TaskPanicked>(after.state->Active_1)
            },
            _ => false,
        },
{
}

/// Whether `event` takes the application from `before` to `after`, and `effects` are done on the
/// way: where a context task is launched, the window and the task have been taken.
pub open spec fn handled<W, C>(
    before: Application<W, C>,
    event: Event,
    effects: Seq<Effect>,
    after: Application<W, C>,
) -> bool {
    exists|between: Application<W, C>, done: Vec<Effect>|
        {
            &&& #[trigger] transition(before, event, between, Ok(done))
            &&& done@ == effects
            &&& if effects.contains(Effect::LaunchContext) {
                after.state is Starting && after.rt_handle == between.rt_handle
            } else {
                after == between
            }
        }
}

/// Whether `events` take a new application through `states`, none of them failing, with `effects`
/// done at each.
pub open spec fn lived<W, C>(
    states: Seq<Application<W, C>>,
    events: Seq<Event>,
    effects: Seq<Seq<Effect>>,
) -> bool {
    &&& states.len() == events.len() + 1
    &&& effects.len() == events.len()
    &&& states[0].state is New
    &&& forall|i: int|
        0 <= i < events.len() ==> handled(
            states[i],
            #[trigger] events[i],
            effects[i],
            states[i + 1],
        )
}

/// How many windows are opened.
pub open spec fn windows(effects: Seq<Seq<Effect>>) -> nat
    decreases effects.len(),
{
    if effects.len() == 0 {
        0
    } else {
        windows(effects.drop_last()) + effects.last().filter(
            |effect: Effect| effect is CreateWindow,
        ).len()
    }
}

/// Whether the application is brought to the foreground before it is closed.
pub open spec fn opens(events: Seq<Event>) -> bool {
    exists|i: int|
        0 <= i < events.len() && #[trigger] events[i] is Resumed && !events.take(i).contains(
            Event::Close,
        )
}

/// The first part of a life is a life.
proof fn lemma_earlier_life<W, C>(
    states: Seq<Application<W, C>>,
    events: Seq<Event>,
    effects: Seq<Seq<Effect>>,
)
    requires
        lived(states, events, effects),
        events.len() > 0,
    ensures
        lived(states.drop_last(), events.drop_last(), effects.drop_last()),
{
    assert forall|i: int| 0 <= i < events.len() - 1 implies handled(
        states.drop_last()[i],
        #[trigger] events.drop_last()[i],
        effects.drop_last()[i],
        states.drop_last()[i + 1],
    ) by {
        assert(events[i] == events.drop_last()[i]);
    }
}

/// The application is new until it is first brought to the foreground or closed.
proof fn lemma_new_until_started<W, C>(
    states: Seq<Application<W, C>>,
    events: Seq<Event>,
    effects: Seq<Seq<Effect>>,
)
    requires
        lived(states, events, effects),
    ensures
        states.last().state is New <==> !events.contains(Event::Resumed) && !events.contains(
            Event::Close,
        ),
    decreases events.len(),
{
    if events.len() > 0 {
        let n = events.len() - 1;
        lemma_earlier_life(states, events, effects);
        lemma_new_until_started(states.drop_last(), events.drop_last(), effects.drop_last());
        assert(handled(states[n], events[n], effects[n], states[n + 1]));
        assert(events =~= events.drop_last().push(events[n]));
        assert forall|event: Event| events.contains(event) implies events.drop_last().contains(
            event,
        ) || event == events[n] by {
            let i = choose|i: int| 0 <= i < events.len() && events[i] == event;
            if i < n {
                assert(events.drop_last()[i] == event);
            }
        }
        assert forall|event: Event| events.drop_last().contains(event) implies events.contains(
            event,
        ) by {
            let i = choose|i: int| 0 <= i < n && events.drop_last()[i] == event;
            assert(events[i] == event);
        }
        assert(seq![Effect::CreateWindow, Effect::LaunchContext][1] == Effect::LaunchContext);
    }
}

/// A window is due if it was due before, or if the last event brings the application to the
/// foreground with nothing closed before.
proof fn lemma_opens_step(events: Seq<Event>)
    requires
        events.len() > 0,
    ensures
        opens(events) <==> opens(events.drop_last()) || (events.last() is Resumed
            && !events.drop_last().contains(Event::Close)),
{
    let earlier = events.drop_last();
    let n = earlier.len() as int;
    assert(events.take(n) =~= earlier);
    if opens(events) {
        let i = choose|i: int|
            0 <= i < events.len() && #[trigger] events[i] is Resumed && !events.take(i).contains(
                Event::Close,
            );
        if i < n {
            assert(earlier.take(i) =~= events.take(i));
            assert(earlier[i] is Resumed);
        }
    }
    if opens(earlier) {
        let i = choose|i: int|
            0 <= i < earlier.len() && #[trigger] earlier[i] is Resumed && !earlier.take(i).contains(
                Event::Close,
            );
        assert(earlier.take(i) =~= events.take(i));
        assert(events[i] is Resumed);
    }
    if events.last() is Resumed && !earlier.contains(Event::Close) {
        assert(events[n] is Resumed);
    }
}

/// An application that was brought to the foreground, and was not closed, has opened a window.
proof fn lemma_opens_unless_closed(events: Seq<Event>)
    requires
        events.contains(Event::Resumed),
        !events.contains(Event::Close),
    ensures
        opens(events),
{
    let i = choose|i: int| 0 <= i < events.len() && events[i] == Event::Resumed;
    assert(events[i] is Resumed);
    assert forall|j: int| 0 <= j < i implies events.take(i)[j] != Event::Close by {
        assert(events.contains(events[j]));
    }
}

/// Exactly one window is opened if the application is brought to the foreground before it is
/// closed, and otherwise none.
pub proof fn law_one_window<W, C>(
    states: Seq<Application<W, C>>,
    events: Seq<Event>,
    effects: Seq<Seq<Effect>>,
)
    requires
        lived(states, events, effects),
    ensures
        windows(effects) == (if opens(events) {
            1nat
        } else {
            0nat
        }),
    decreases events.len(),
{
    if events.len() > 0 {
        let n = events.len() - 1;
        let earlier = events.drop_last();
        let is_window = |effect: Effect| effect is CreateWindow;
        lemma_earlier_life(states, events, effects);
        law_one_window(states.drop_last(), earlier, effects.drop_last());
        lemma_new_until_started(states.drop_last(), earlier, effects.drop_last());
        lemma_opens_step(events);
        assert(handled(states[n], events[n], effects[n], states[n + 1]));
        reveal_with_fuel(Seq::filter, 3);
        if states[n].state is New && events[n] is Resumed {
            assert(effects[n] == seq![Effect::CreateWindow, Effect::LaunchContext]);
            assert(effects[n].drop_last() =~= seq![Effect::CreateWindow]);
            assert(effects[n].drop_last().drop_last() =~= Seq::<Effect>::empty());
            assert(effects[n].filter(is_window).len() == 1);
            assert(!opens(earlier)) by {
                if opens(earlier) {
                    let i = choose|i: int|
                        0 <= i < earlier.len() && #[trigger] earlier[i] is Resumed;
                    assert(earlier.contains(earlier[i]));
                }
            }
        } else {
            lemma_no_window(effects[n]);
            if events[n] is Resumed && !earlier.contains(Event::Close) {
                lemma_opens_unless_closed(earlier);
            }
        }
    }
}

/// Effects without a new window count for none.
proof fn lemma_no_window(effects: Seq<Effect>)
    requires
        !effects.contains(Effect::CreateWindow),
    ensures
        effects.filter(|effect: Effect| effect is CreateWindow).len() == 0,
    decreases effects.len(),
{
    reveal(Seq::filter);
    if effects.len() > 0 {
        assert(effects.contains(effects.last()));
        assert forall|effect: Effect| effects.drop_last().contains(effect) implies effects.contains(
            effect,
        ) by {
            let i = choose|i: int|
                0 <= i < effects.drop_last().len() && effects.drop_last()[i] == effect;
            assert(effects[i] == effect);
        }
        lemma_no_window(effects.drop_last());
    }
}

/// An active application has configured its context.
proof fn lemma_active_was_configured<W, C>(
    states: Seq<Application<W, C>>,
    events: Seq<Event>,
    effects: Seq<Seq<Effect>>,
    i: int,
)
    requires
        lived(states, events, effects),
        0 <= i < states.len(),
        states[i].state is Active,
    ensures
        exists|j: int|
            0 <= j < i && (#[trigger] effects[j]).contains(Effect::ResizeContext) && states[j
                + 1].state == states[i].state,
    decreases i,
{
    if i > 0 {
        assert(handled(states[i - 1], events[i - 1], effects[i - 1], states[i]));
        if states[i - 1].state is Active {
            lemma_active_was_configured(states, events, effects, i - 1);
        } else {
            assert(effects[i - 1][0] == Effect::ResizeContext);
        }
    }
}

/// A frame is drawn only with a context that was configured before, for the window that it is drawn
/// in.
pub proof fn law_drawn_after_configured<W, C>(
    states: Seq<Application<W, C>>,
    events: Seq<Event>,
    effects: Seq<Seq<Effect>>,
    i: int,
)
    requires
        lived(states, events, effects),
        0 <= i < events.len(),
        effects[i].contains(Effect::Draw),
    ensures
        states[i].state is Active,
        states[i + 1].state == states[i].state,
        exists|j: int|
            0 <= j < i && (#[trigger] effects[j]).contains(Effect::ResizeContext) && states[j
                + 1].state == states[i].state,
{
    assert(handled(states[i], events[i], effects[i], states[i + 1]));
    lemma_active_was_configured(states, events, effects, i);
}

}
