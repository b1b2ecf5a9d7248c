//! The decisions of the host's two message loops. The main loop counts the
//! plugins that are active and ends the host once all have finished their
//! closing session; the dispatcher keeps the plugins that finished their
//! start-up and hands them out for their closing session on shutdown. The
//! loops themselves, their channels and threads, are the caller's.
use vstd::prelude::*;

verus! {

/// A message of the host's loops. `T` is what travels with a plugin that
/// finished its start-up.
pub enum HostMessage<T> {
    /// A plugin finished its entry point.
    InitializeDone(T),
    /// A message for a running plugin; neither loop acts on it yet.
    DispatchMessage,
    /// The host is asked to shut down.
    CoreClosing,
    /// A plugin finished its closing session.
    PluginProcessingComplete,
    /// The dispatcher took a plugin in.
    PluginActivate,
}

/// What the main loop does with a message.
pub enum CoreAction<T> {
    /// Hand the started plugin to the dispatcher.
    ForwardToDispatcher(T),
    /// Pass the shutdown request on to the dispatcher.
    ForwardClosing,
    /// Leave the loop: every active plugin has finished.
    Finish,
    /// Wait for the next message.
    Wait,
}

/// The main loop's answer to a message when `n` plugins are active: the
/// number active afterwards, and what to do.
pub open spec fn core_step<T>(n: int, msg: HostMessage<T>) -> (int, CoreAction<T>) {
    match msg {
        HostMessage::InitializeDone(p) => (n, CoreAction::ForwardToDispatcher(p)),
        HostMessage::DispatchMessage => (n, CoreAction::Wait),
        HostMessage::CoreClosing => (n, CoreAction::ForwardClosing),
        HostMessage::PluginProcessingComplete => (
            n - 1,
            if n - 1 == 0 {
                CoreAction::Finish
            } else {
                CoreAction::Wait
            },
        ),
        HostMessage::PluginActivate => (n + 1, CoreAction::Wait),
    }
}

/// The main loop takes the message without its counter leaving `i32`.
pub open spec fn core_accepts<T>(n: int, msg: HostMessage<T>) -> bool {
    match msg {
        HostMessage::PluginActivate => n < i32::MAX,
        HostMessage::PluginProcessingComplete => n > i32::MIN,
        _ => true,
    }
}

/// State of the main loop: how many plugins are active.
pub struct CoreLoop {
    activated: i32,
}

impl View for CoreLoop {
    type V = int;

    closed spec fn view(&self) -> int {
        self.activated as int
    }
}

impl CoreLoop {
    /// The main loop for `plugin_count` loaded plugins; `None` when there is
    /// none, and the host has nothing to wait for.
    pub fn start(plugin_count: usize) -> (r: Option<CoreLoop>)
        ensures
            r is None <==> plugin_count == 0,
            r matches Some(c) ==> c@ == 0,
    {
        if plugin_count == 0 {
            None
        } else {
            Some(CoreLoop { activated: 0 })
        }
    }

    /// How many plugins are active.
    pub fn activated(&self) -> (r: i32)
        ensures
            r == self@,
    {
        self.activated
    }

    /// Whether `handle` takes `msg` in the present state.
    pub fn accepts<T>(&self, msg: &HostMessage<T>) -> (r: bool)
        ensures
            r == core_accepts(self@, *msg),
    {
        match msg {
            HostMessage::PluginActivate => self.activated < i32::MAX,
            HostMessage::PluginProcessingComplete => self.activated > i32::MIN,
            _ => true,
        }
    }

    /// Takes one message and says what to do with it.
    pub fn handle<T>(&mut self, msg: HostMessage<T>) -> (r: CoreAction<T>)
        requires
            core_accepts(old(self)@, msg),
        ensures
            (final(self)@, r) == core_step(old(self)@, msg),
    {
        match msg {
            HostMessage::InitializeDone(p) => CoreAction::ForwardToDispatcher(p),
            HostMessage::DispatchMessage => CoreAction::Wait,
            HostMessage::CoreClosing => CoreAction::ForwardClosing,
            HostMessage::PluginProcessingComplete => {
                self.activated = self.activated - 1;
                if self.activated == 0 {
                    CoreAction::Finish
                } else {
                    CoreAction::Wait
                }
            },
            HostMessage::PluginActivate => {
                self.activated = self.activated + 1;
                CoreAction::Wait
            },
        }
    }
}

/// What the dispatcher does with a message.
pub enum DispatchAction<T> {
    /// Tell the main loop that one more plugin is active.
    NotifyActivated,
    /// Run the closing session of each of these plugins.
    EndSessions(Vec<T>),
    /// Nothing.
    Nothing,
}

/// The plugins the dispatcher holds after a message.
pub open spec fn dispatch_step<T>(s: Seq<T>, msg: HostMessage<T>) -> Seq<T> {
    match msg {
        HostMessage::InitializeDone(p) => s.push(p),
        HostMessage::CoreClosing => Seq::empty(),
        _ => s,
    }
}

/// State of the dispatcher: the plugins that finished their start-up and
/// have not yet been sent to their closing session, in order of arrival.
pub struct Dispatcher<T> {
    plugins: Vec<T>,
}

impl<T> View for Dispatcher<T> {
    type V = Seq<T>;

    closed spec fn view(&self) -> Seq<T> {
        self.plugins@
    }
}

impl<T> Dispatcher<T> {
    pub fn new() -> (r: Self)
        ensures
            r@ == Seq::<T>::empty(),
    {
        Dispatcher { plugins: Vec::new() }
    }

    /// Takes one message and says what to do with it: a started plugin is
    /// kept and announced to the main loop; on shutdown every kept plugin is
    /// handed out, in order of arrival, and none is kept any more.
    pub fn handle(&mut self, msg: HostMessage<T>) -> (r: DispatchAction<T>)
        ensures
            final(self)@ == dispatch_step(old(self)@, msg),
            msg is InitializeDone <==> r is NotifyActivated,
            msg is CoreClosing <==> r is EndSessions,
            r matches DispatchAction::EndSessions(v) ==> v@ == old(self)@,
    {
        match msg {
            HostMessage::InitializeDone(p) => {
                self.plugins.push(p);
                DispatchAction::NotifyActivated
            },
            HostMessage::CoreClosing => {
                let mut ending: Vec<T> = Vec::new();
                std::mem::swap(&mut ending, &mut self.plugins);
                DispatchAction::EndSessions(ending)
            },
            _ => DispatchAction::Nothing,
        }
    }
}

/// Number of activations among the messages.
pub open spec fn count_activations<T>(msgs: Seq<HostMessage<T>>) -> int
    decreases msgs.len(),
{
    if msgs.len() == 0 {
        0
    } else {
        count_activations(msgs.drop_last()) + if msgs.last() is PluginActivate {
            1int
        } else {
            0int
        }
    }
}

/// Number of finished closing sessions among the messages.
pub open spec fn count_completions<T>(msgs: Seq<HostMessage<T>>) -> int
    decreases msgs.len(),
{
    if msgs.len() == 0 {
        0
    } else {
        count_completions(msgs.drop_last()) + if msgs.last() is PluginProcessingComplete {
            1int
        } else {
            0int
        }
    }
}

/// The main loop's count after the messages, one by one.
pub open spec fn core_after<T>(n: int, msgs: Seq<HostMessage<T>>) -> int
    decreases msgs.len(),
{
    if msgs.len() == 0 {
        n
    } else {
        core_step(core_after(n, msgs.drop_last()), msgs.last()).0
    }
}

/// The main loop counts exactly the plugins that were activated and have
/// not yet completed their closing session.
pub proof fn lemma_core_counts_active<T>(n: int, msgs: Seq<HostMessage<T>>)
    ensures
        core_after(n, msgs) == n + count_activations(msgs) - count_completions(msgs),
    decreases msgs.len(),
{
    if msgs.len() > 0 {
        lemma_core_counts_active(n, msgs.drop_last());
    }
}

/// Starting with no active plugin, a completed closing session ends the
/// host exactly when, with it, as many sessions have completed as plugins
/// were activated.
pub proof fn lemma_core_finishes_when_all_complete<T>(msgs: Seq<HostMessage<T>>)
    ensures
        core_step(core_after(0, msgs), HostMessage::<T>::PluginProcessingComplete).1 is Finish
            <==> count_completions(msgs) + 1 == count_activations(msgs),
{
    lemma_core_counts_active(0, msgs);
}

/// The plugins that finished their start-up among the messages, in order.
pub open spec fn started_plugins<T>(msgs: Seq<HostMessage<T>>) -> Seq<T>
    decreases msgs.len(),
{
    if msgs.len() == 0 {
        Seq::empty()
    } else {
        let s = started_plugins(msgs.drop_last());
        match msgs.last() {
            HostMessage::InitializeDone(p) => s.push(p),
            _ => s,
        }
    }
}

/// The dispatcher's plugins after the messages, one by one.
pub open spec fn dispatch_after<T>(s: Seq<T>, msgs: Seq<HostMessage<T>>) -> Seq<T>
    decreases msgs.len(),
{
    if msgs.len() == 0 {
        s
    } else {
        dispatch_step(dispatch_after(s, msgs.drop_last()), msgs.last())
    }
}

/// Until shutdown, the dispatcher holds every plugin that finished its
/// start-up, once and in order of arrival; so shutdown sends each of them,
/// and only them, to its closing session.
pub proof fn lemma_dispatcher_keeps_started<T>(msgs: Seq<HostMessage<T>>)
    requires
        forall|i: int| 0 <= i < msgs.len() ==> !(#[trigger] msgs[i] is CoreClosing),
    ensures
        dispatch_after(Seq::<T>::empty(), msgs) == started_plugins(msgs),
    decreases msgs.len(),
{
    if msgs.len() > 0 {
        let init = msgs.drop_last();
        assert forall|i: int| 0 <= i < init.len() implies !(#[trigger] init[i] is CoreClosing) by {
            assert(init[i] == msgs[i]);
        }
        lemma_dispatcher_keeps_started(init);
        assert(!(msgs[msgs.len() - 1] is CoreClosing));
    }
}

/// The main loop takes every message except an activation when its count
/// is at `i32::MAX` and a completion when it is at `i32::MIN`; in
/// particular it always takes the shutdown request.
pub proof fn lemma_core_takes_every_message<T>(n: int, p: T)
    ensures
        core_accepts(n, HostMessage::<T>::CoreClosing),
        core_accepts(n, HostMessage::<T>::InitializeDone(p)),
        core_accepts(n, HostMessage::<T>::DispatchMessage),
        core_accepts(n, HostMessage::<T>::PluginActivate) <==> n < i32::MAX,
        core_accepts(n, HostMessage::<T>::PluginProcessingComplete) <==> n > i32::MIN,
{
}

/// What the main loop does with each message: a started plugin goes to the
/// dispatcher and the shutdown request is passed on, both leaving the
/// count; an activation raises the count; a completion lowers it and ends
/// the loop when none is left active; a plugin message is left waiting.
pub proof fn lemma_core_answers<T>(n: int, p: T)
    ensures
        core_step(n, HostMessage::<T>::InitializeDone(p)) == (n, CoreAction::ForwardToDispatcher(p)),
        core_step(n, HostMessage::<T>::CoreClosing).0 == n,
        core_step(n, HostMessage::<T>::CoreClosing).1 is ForwardClosing,
        core_step(n, HostMessage::<T>::DispatchMessage).0 == n,
        core_step(n, HostMessage::<T>::DispatchMessage).1 is Wait,
        core_step(n, HostMessage::<T>::PluginActivate).0 == n + 1,
        core_step(n, HostMessage::<T>::PluginActivate).1 is Wait,
        core_step(n, HostMessage::<T>::PluginProcessingComplete).0 == n - 1,
        core_step(n, HostMessage::<T>::PluginProcessingComplete).1 is Finish <==> n == 1,
        core_step(n, HostMessage::<T>::PluginProcessingComplete).1 is Wait <==> n != 1,
{
}

/// The dispatcher keeps a started plugin after those it holds, hands out
/// and forgets all of them on shutdown, and keeps them as they are on any
/// other message.
pub proof fn lemma_dispatcher_answers<T>(s: Seq<T>, p: T)
    ensures
        dispatch_step(s, HostMessage::InitializeDone(p)).len() == s.len() + 1,
        dispatch_step(s, HostMessage::InitializeDone(p)).last() == p,
        dispatch_step(s, HostMessage::InitializeDone(p)).drop_last() == s,
        dispatch_step(s, HostMessage::<T>::CoreClosing).len() == 0,
        dispatch_step(s, HostMessage::<T>::DispatchMessage) == s,
        dispatch_step(s, HostMessage::<T>::PluginActivate) == s,
        dispatch_step(s, HostMessage::<T>::PluginProcessingComplete) == s,
{
    assert(s.push(p).drop_last() =~= s);
}

} // verus!
