//! What the daemon starts, and in what order.
use crate::addr;
use crate::addr::SocketAddr;
use crate::config::Config;
use crate::path;
use crate::path::FilePath;
use crate::wavelog::station::StationSource;
use vstd::prelude::*;

verus! {

/// What the daemon binds and runs. All listeners are bound up front, so that
/// port conflicts surface before any task is spawned.
pub struct DaemonPlan {
    /// The click-to-tune listener.
    pub listen: SocketAddr,
    /// The WebSocket server, unless it is disabled.
    pub ws_listen: Option<SocketAddr>,
    /// The WSJT-X listener, where it is enabled.
    pub wsjtx_listen: Option<SocketAddr>,
    /// Where forwarded QSOs go. `None` where nothing is forwarded.
    pub station: Option<StationSource>,
}

/// Decides what to bind and run. QSOs are forwarded where the WSJT-X listener is
/// enabled and a station is pinned.
pub fn plan(config: &Config) -> (p: DaemonPlan)
    ensures
        p.listen == config.listen_addr,
        p.ws_listen == (if config.no_ws {
            None
        } else {
            Some(config.ws_listen_addr)
        }),
        p.wsjtx_listen == (if config.wsjtx {
            Some(config.wsjtx_listen_addr)
        } else {
            None
        }),
        match config.station_id {
            Some(id) => if config.wsjtx {
                p.station matches Some(StationSource::Fixed(pinned)) && pinned@ == id@
            } else {
                p.station is None
            },
            None => p.station is None,
        },
{
    let ws_listen = if config.no_ws {
        None
    } else {
        Some(config.ws_listen_addr)
    };
    let wsjtx_listen = if config.wsjtx {
        Some(config.wsjtx_listen_addr)
    } else {
        None
    };
    let station = match &config.station_id {
        Some(id) => if config.wsjtx {
            Some(StationSource::Fixed(id.clone()))
        } else {
            None
        },
        None => None,
    };
    DaemonPlan { listen: config.listen_addr, ws_listen, wsjtx_listen, station }
}

/// A step of the start.
#[derive(Debug, Clone, Copy, PartialEq, Eq, Structural)]
pub enum Step {
    /// Bind the click-to-tune listener.
    BindListener(SocketAddr),
    /// Bind the WebSocket server.
    BindWs(SocketAddr),
    /// Bind the WSJT-X listener.
    BindWsjtx(SocketAddr),
    /// Spawn the owner of the rigctld connection.
    StartRig,
    /// Build the Wavelog client.
    BuildClient,
    /// Spawn the poller.
    StartPoller,
    /// Spawn the click-to-tune listener.
    StartListener,
    /// Spawn the WebSocket server.
    StartWs,
    /// Open the queue of pending QSOs.
    OpenQueue,
    /// Spawn the WSJT-X listener and its POST worker.
    StartWsjtx,
}

/// The step binds a listener.
pub open spec fn is_bind(step: Step) -> bool {
    step is BindListener || step is BindWs || step is BindWsjtx
}

/// The listeners that a plan binds.
pub open spec fn binds(plan: DaemonPlan) -> Seq<Step> {
    seq![Step::BindListener(plan.listen)] + (match plan.ws_listen {
        Some(at) => seq![Step::BindWs(at)],
        None => Seq::empty(),
    }) + (match plan.wsjtx_listen {
        Some(at) => seq![Step::BindWsjtx(at)],
        None => Seq::empty(),
    })
}

/// What a plan starts once its listeners are bound. QSOs are forwarded where
/// there is a WSJT-X listener and a station.
pub open spec fn starts(plan: DaemonPlan) -> Seq<Step> {
    seq![Step::StartRig, Step::BuildClient, Step::StartPoller, Step::StartListener] + (
    if plan.ws_listen is Some {
        seq![Step::StartWs]
    } else {
        Seq::empty()
    }) + (if plan.wsjtx_listen is Some && plan.station is Some {
        seq![Step::OpenQueue, Step::StartWsjtx]
    } else {
        Seq::empty()
    })
}

/// The steps of a plan, in order.
pub open spec fn steps(plan: DaemonPlan) -> Seq<Step> {
    binds(plan) + starts(plan)
}

/// Lists the steps of a plan.
pub fn startup_steps(plan: &DaemonPlan) -> (list: Vec<Step>)
    ensures
        list@ == steps(*plan),
{
    let mut list: Vec<Step> = Vec::new();
    list.push(Step::BindListener(plan.listen));
    if let Some(at) = plan.ws_listen {
        list.push(Step::BindWs(at));
    }
    if let Some(at) = plan.wsjtx_listen {
        list.push(Step::BindWsjtx(at));
    }
    assert(list@ =~= binds(*plan));
    list.push(Step::StartRig);
    list.push(Step::BuildClient);
    list.push(Step::StartPoller);
    list.push(Step::StartListener);
    if plan.ws_listen.is_some() {
        list.push(Step::StartWs);
    }
    if plan.wsjtx_listen.is_some() && plan.station.is_some() {
        list.push(Step::OpenQueue);
        list.push(Step::StartWsjtx);
    }
    assert(list@ =~= binds(*plan) + starts(*plan));
    list
}

/// What to do next during the start.
#[derive(Debug, Clone, Copy, PartialEq, Eq, Structural)]
pub enum StartupAction {
    /// Take this step.
    Take(Step),
    /// Everything is started.
    Running,
    /// Give up: this step failed.
    Fail(Step),
}

/// How far the start has come.
#[verifier::ext_equal]
pub struct StartupView {
    pub steps: Seq<Step>,
    /// How many of the steps have been taken.
    pub taken: int,
    /// A step failed.
    pub failed: bool,
}

/// A step of the start is under way.
pub open spec fn is_under_way(s: StartupView) -> bool {
    !s.failed && 0 <= s.taken < s.steps.len()
}

/// What the start does when the step under way has ended.
pub open spec fn step_ended(s: StartupView, ok: bool) -> (StartupView, StartupAction) {
    if !ok {
        (StartupView { failed: true, ..s }, StartupAction::Fail(s.steps[s.taken]))
    } else if s.taken + 1 < s.steps.len() {
        (
            StartupView { taken: s.taken + 1, ..s },
            StartupAction::Take(s.steps[s.taken + 1]),
        )
    } else {
        (StartupView { taken: s.taken + 1, ..s }, StartupAction::Running)
    }
}

/// The start of a daemon.
pub struct Startup {
    steps: Vec<Step>,
    taken: usize,
    failed: bool,
}

impl View for Startup {
    type V = StartupView;

    closed spec fn view(&self) -> StartupView {
        StartupView { steps: self.steps@, taken: self.taken as int, failed: self.failed }
    }
}

impl Startup {
    /// Begins the start: the click-to-tune listener is bound first.
    pub fn begin(plan: &DaemonPlan) -> (begun: (Startup, StartupAction))
        ensures
            begun.0@ == begun_view(*plan),
            begun.1 == StartupAction::Take(Step::BindListener(plan.listen)),
            begun.1 == StartupAction::Take(steps(*plan)[0]),
    {
        let list = startup_steps(plan);
        (
            Startup { steps: list, taken: 0, failed: false },
            StartupAction::Take(Step::BindListener(plan.listen)),
        )
    }

    /// The step under way ended, well or not.
    pub fn on_step_ended(&mut self, ok: bool) -> (action: StartupAction)
        requires
            is_under_way(old(self)@),
        ensures
            (final(self)@, action) == step_ended(old(self)@, ok),
    {
        if !ok {
            self.failed = true;
            return StartupAction::Fail(self.steps[self.taken]);
        }
        let len: usize = self.steps.len();
        self.taken = self.taken + 1;
        if self.taken < len {
            StartupAction::Take(self.steps[self.taken])
        } else {
            StartupAction::Running
        }
    }
}

/// The start of a plan, before its first step.
pub open spec fn begun_view(plan: DaemonPlan) -> StartupView {
    StartupView { steps: steps(plan), taken: 0, failed: false }
}

/// Where the start of a plan is, and what it does, when steps have ended so.
pub open spec fn started(plan: DaemonPlan, oks: Seq<bool>) -> (StartupView, StartupAction)
    decreases oks.len(),
{
    if oks.len() == 0 {
        (begun_view(plan), StartupAction::Take(steps(plan)[0]))
    } else {
        step_ended(started(plan, oks.drop_last()).0, oks.last())
    }
}

/// Steps of a plan that can have ended so, one after the other.
pub open spec fn is_course(plan: DaemonPlan, oks: Seq<bool>) -> bool
    decreases oks.len(),
{
    oks.len() == 0 || (is_course(plan, oks.drop_last()) && is_under_way(
        started(plan, oks.drop_last()).0,
    ))
}

/// The steps are taken in order, each only when all before it ended well, and
/// the first that fails ends the start.
pub proof fn steps_are_taken_in_order(plan: DaemonPlan, oks: Seq<bool>)
    requires
        is_course(plan, oks),
    ensures
        oks.len() <= steps(plan).len(),
        forall|i: int| 0 <= i < oks.len() - 1 ==> #[trigger] oks[i],
        started(plan, oks).1 == (if oks.len() > 0 && !oks.last() {
            StartupAction::Fail(steps(plan)[oks.len() - 1])
        } else if oks.len() < steps(plan).len() {
            StartupAction::Take(steps(plan)[oks.len() as int])
        } else {
            StartupAction::Running
        }),
        started(plan, oks).0 == (StartupView {
            steps: steps(plan),
            taken: if oks.len() > 0 && !oks.last() {
                oks.len() - 1
            } else {
                oks.len() as int
            },
            failed: oks.len() > 0 && !oks.last(),
        }),
    decreases oks.len(),
{
    if oks.len() > 0 {
        let before = oks.drop_last();
        steps_are_taken_in_order(plan, before);
        assert forall|i: int| 0 <= i < oks.len() - 1 implies #[trigger] oks[i] by {
            if i < before.len() - 1 {
                assert(before[i]);
            } else {
                assert(before.last());
            }
        }
    }
}

/// Nothing is started before every listener of the plan is bound: where the start
/// takes a step that binds nothing, or runs, the first steps to end were the
/// binds of the plan, all of them, and all of them ended well.
pub proof fn nothing_starts_before_all_binds(plan: DaemonPlan, oks: Seq<bool>)
    requires
        is_course(plan, oks),
        match started(plan, oks).1 {
            StartupAction::Take(step) => !is_bind(step),
            StartupAction::Running => true,
            StartupAction::Fail(step) => !is_bind(step),
        },
    ensures
        oks.len() >= binds(plan).len(),
        steps(plan).take(binds(plan).len() as int) == binds(plan),
        forall|i: int| 0 <= i < binds(plan).len() ==> #[trigger] oks[i],
{
    steps_are_taken_in_order(plan, oks);
    let n = binds(plan).len() as int;
    assert(steps(plan).take(n) =~= binds(plan));
    assert forall|i: int| 0 <= i < n implies is_bind(#[trigger] steps(plan)[i]) by {
        assert(steps(plan)[i] == binds(plan)[i]);
    }
}

/// A listener that cannot be bound ends the start with nothing started: all the
/// steps taken were binds.
pub proof fn failed_bind_starts_nothing(plan: DaemonPlan, oks: Seq<bool>)
    requires
        is_course(plan, oks),
        0 < oks.len() <= binds(plan).len(),
        !oks.last(),
    ensures
        started(plan, oks).1 == StartupAction::Fail(binds(plan)[oks.len() - 1]),
        !is_under_way(started(plan, oks).0),
        forall|i: int|
            0 <= i < oks.len() ==> (#[trigger] started(plan, oks.take(i)).1)
                == StartupAction::Take(binds(plan)[i]),
{
    steps_are_taken_in_order(plan, oks);
    assert(steps(plan)[oks.len() - 1] == binds(plan)[oks.len() - 1]);
    assert forall|i: int| 0 <= i < oks.len() implies (#[trigger] started(plan, oks.take(i)).1)
        == StartupAction::Take(binds(plan)[i]) by {
        lemma_course_prefix(plan, oks, i);
        steps_are_taken_in_order(plan, oks.take(i));
        if i > 0 {
            assert(oks[i - 1]);
            assert(oks.take(i).last() == oks[i - 1]);
        }
        assert(steps(plan)[i] == binds(plan)[i]);
    }
}

proof fn lemma_course_prefix(plan: DaemonPlan, oks: Seq<bool>, n: int)
    requires
        is_course(plan, oks),
        0 <= n <= oks.len(),
    ensures
        is_course(plan, oks.take(n)),
    decreases oks.len(),
{
    if n == oks.len() {
        assert(oks.take(n) == oks);
    } else {
        lemma_course_prefix(plan, oks.drop_last(), n);
        assert(oks.drop_last().take(n) == oks.take(n));
    }
}

/// What is shown where a step fails; nothing for a step that cannot fail.
pub open spec fn failure_text(step: Step, queue_path: Seq<u8>) -> Option<Seq<char>> {
    match step {
        Step::BindListener(at) => Some("failed to bind listener on "@ + addr::socket_addr_text(at)),
        Step::BindWs(at) => Some("failed to bind ws server on "@ + addr::socket_addr_text(at)),
        Step::BindWsjtx(at) => Some(
            "failed to bind wsjtx listener on "@ + addr::socket_addr_text(at),
        ),
        Step::BuildClient => Some("failed to build wavelog client"@),
        Step::OpenQueue => Some("failed to open QSO queue at "@ + path::lossy_text(queue_path)),
        _ => None,
    }
}

impl Step {
    /// Says what is shown where the step fails.
    pub fn failure(&self, queue_path: &FilePath) -> (shown: Option<String>)
        ensures
            match failure_text(*self, queue_path@) {
                Some(text) => shown matches Some(s) && s@ == text,
                None => shown is None,
            },
    {
        let mut shown = String::new();
        match self {
            Step::BindListener(at) => {
                shown.append("failed to bind listener on ");
                shown.append(at.to_text().as_str());
            },
            Step::BindWs(at) => {
                shown.append("failed to bind ws server on ");
                shown.append(at.to_text().as_str());
            },
            Step::BindWsjtx(at) => {
                shown.append("failed to bind wsjtx listener on ");
                shown.append(at.to_text().as_str());
            },
            Step::BuildClient => {
                shown.append("failed to build wavelog client");
            },
            Step::OpenQueue => {
                shown.append("failed to open QSO queue at ");
                shown.append(queue_path.to_text().as_str());
            },
            _ => {
                return None;
            },
        }
        assert(failure_text(*self, queue_path@) == Some(shown@));
        Some(shown)
    }
}

/// What is planned is done, and nothing else: a step is among the steps exactly where
/// the plan asks for it.
pub proof fn steps_are_those_of_the_plan(plan: DaemonPlan, step: Step)
    ensures
        steps(plan).contains(step) <==> match step {
            Step::BindListener(at) => at == plan.listen,
            Step::BindWs(at) => plan.ws_listen == Some(at),
            Step::BindWsjtx(at) => plan.wsjtx_listen == Some(at),
            Step::StartRig => true,
            Step::BuildClient => true,
            Step::StartPoller => true,
            Step::StartListener => true,
            Step::StartWs => plan.ws_listen is Some,
            Step::OpenQueue => plan.wsjtx_listen is Some && plan.station is Some,
            Step::StartWsjtx => plan.wsjtx_listen is Some && plan.station is Some,
        },
{
    let all = steps(plan);
    let w: int = if plan.ws_listen is Some {
        1
    } else {
        0
    };
    let x: int = if plan.wsjtx_listen is Some {
        1
    } else {
        0
    };
    assert(all[0] == Step::BindListener(plan.listen));
    assert(w == 1 ==> all[1] == Step::BindWs(plan.ws_listen->Some_0));
    assert(x == 1 ==> all[1 + w] == Step::BindWsjtx(plan.wsjtx_listen->Some_0));
    assert(all[1 + w + x] == Step::StartRig);
    assert(all[2 + w + x] == Step::BuildClient);
    assert(all[3 + w + x] == Step::StartPoller);
    assert(all[4 + w + x] == Step::StartListener);
    assert(w == 1 ==> all[5 + w + x] == Step::StartWs);
    assert(x == 1 && plan.station is Some ==> all[5 + 2 * w + x] == Step::OpenQueue && all[6 + 2 * w
        + x] == Step::StartWsjtx);
}

/// No step is taken twice; all listeners are bound before anything is started; the
/// poller is started behind the rig and the client that it works with, and the WSJT-X
/// listener behind the queue that it fills.
pub proof fn steps_follow_what_they_need(plan: DaemonPlan, i: int, j: int)
    requires
        0 <= i < steps(plan).len(),
        0 <= j < steps(plan).len(),
    ensures
        steps(plan)[i] == steps(plan)[j] ==> i == j,
        (steps(plan)[i] is BindListener || steps(plan)[i] is BindWs || steps(plan)[i] is BindWsjtx)
            && !(steps(plan)[j] is BindListener || steps(plan)[j] is BindWs || steps(plan)[j]
            is BindWsjtx) ==> i < j,
        steps(plan)[i] is StartRig && steps(plan)[j] is StartPoller ==> i < j,
        steps(plan)[i] is BuildClient && steps(plan)[j] is StartPoller ==> i < j,
        steps(plan)[i] is StartRig && steps(plan)[j] is StartListener ==> i < j,
        steps(plan)[i] is OpenQueue && steps(plan)[j] is StartWsjtx ==> i < j,
        steps(plan)[i] is BuildClient && steps(plan)[j] is StartWsjtx ==> i < j,
{
}

/// A failure names what could not be bound or opened, and steps that cannot fail have no
/// text.
pub proof fn failures_name_what_failed(step: Step, queue_path: Seq<u8>)
    ensures
        failure_text(step, queue_path) is Some <==> step is BindListener || step is BindWs || step
            is BindWsjtx || step is BuildClient || step is OpenQueue,
        match (step, failure_text(step, queue_path)) {
            (Step::BindListener(at), Some(t)) => names_at_end(t, addr::socket_addr_text(at)),
            (Step::BindWs(at), Some(t)) => names_at_end(t, addr::socket_addr_text(at)),
            (Step::BindWsjtx(at), Some(t)) => names_at_end(t, addr::socket_addr_text(at)),
            (Step::OpenQueue, Some(t)) => names_at_end(t, path::lossy_text(queue_path)),
            _ => true,
        },
{
    reveal_strlit("failed to bind listener on ");
    reveal_strlit("failed to bind ws server on ");
    reveal_strlit("failed to bind wsjtx listener on ");
    reveal_strlit("failed to open QSO queue at ");
    match (step, failure_text(step, queue_path)) {
        (Step::BindListener(at), Some(t)) => {
            assert(t.skip(t.len() - addr::socket_addr_text(at).len()) =~= addr::socket_addr_text(
                at,
            ));
        },
        (Step::BindWs(at), Some(t)) => {
            assert(t.skip(t.len() - addr::socket_addr_text(at).len()) =~= addr::socket_addr_text(
                at,
            ));
        },
        (Step::BindWsjtx(at), Some(t)) => {
            assert(t.skip(t.len() - addr::socket_addr_text(at).len()) =~= addr::socket_addr_text(
                at,
            ));
        },
        (Step::OpenQueue, Some(t)) => {
            assert(t.skip(t.len() - path::lossy_text(queue_path).len()) =~= path::lossy_text(
                queue_path,
            ));
        },
        _ => {},
    }
}

/// A text ends in a space and a name.
pub open spec fn names_at_end(t: Seq<char>, name: Seq<char>) -> bool {
    &&& t.len() > name.len()
    &&& t.skip(t.len() - name.len()) == name
    &&& t[t.len() - name.len() - 1] == ' '
}

} // verus!
