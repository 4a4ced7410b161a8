use vstd::prelude::*;
use crate::locate::{
    find_module_base, find_process, found_module_base, found_process, ModuleEntry, ProcessEntry,
};
use crate::patch::{
    lemma_outcomes_stay, lemma_start_is_well_formed, MemoryAction, MemoryReply, OffsetOutcome,
    Patcher, PatcherView,
};

verus! {

/// What a run is to look for and where it is to patch.
#[derive(Debug)]
pub struct Config {
    /// A part of the executable name of the target process.
    pub process_name: String,
    /// A part of the name of the module whose base the offsets count from.
    pub module_name: String,
    /// How many bytes a probe read asks for.
    pub probe_size: usize,
    /// The places to patch, each as a distance from the module's base, in the
    /// order in which they are tried.
    pub offsets: Vec<usize>,
}

/// How a run ended.
#[derive(Clone, Copy, Debug, PartialEq, Eq, Structural)]
pub enum Verdict {
    /// The process was found and its module was not. Nothing was patched.
    ModuleNotFound,
    /// The process could not be opened. Nothing was patched.
    HandleUnavailable,
    /// Every offset of the table was tried and the handle was given back.
    Completed,
}

/// What an opened process is to allow.
#[derive(Clone, Copy, Debug, PartialEq, Eq, Structural)]
pub struct AccessRights {
    /// Reading its memory.
    pub read: bool,
    /// Writing its memory.
    pub write: bool,
    /// Operating on its address space.
    pub operate: bool,
    /// Querying information about it.
    pub query: bool,
}

/// The rights that patching needs: all four.
pub open spec fn patching_rights() -> AccessRights {
    AccessRights { read: true, write: true, operate: true, query: true }
}

impl AccessRights {
    /// The rights that patching needs.
    pub fn for_patching() -> (rights: AccessRights)
        ensures
            rights == patching_rights(),
    {
        AccessRights { read: true, write: true, operate: true, query: true }
    }
}

/// What the run asks of the system next.
#[derive(Clone, Copy, Debug, PartialEq, Eq, Structural)]
pub enum Action {
    /// Take a snapshot of the running processes.
    ListProcesses,
    /// Let some time pass before the processes are listed again.
    Pause,
    /// Take a snapshot of the modules loaded in process `pid`.
    ListModules { pid: u32 },
    /// Open process `pid` with `rights`.
    OpenProcess { pid: u32, rights: AccessRights },
    /// Read `length` bytes at `address` in the opened process.
    Probe { address: usize, length: usize },
    /// Write the payload, which is `length` bytes long, at `address` in the
    /// opened process.
    Write { address: usize, length: usize },
    /// Give back the handle of the opened process.
    Release,
    /// Nothing: the run is over.
    Stop,
}

/// What the system answered.
#[derive(Debug)]
pub enum Event {
    /// The snapshot of the running processes, or nothing where it could not
    /// be taken.
    Processes(Option<Vec<ProcessEntry>>),
    /// The pause is over.
    Paused,
    /// The snapshot of the modules of the process, or nothing where it could
    /// not be taken.
    Modules(Option<Vec<ModuleEntry>>),
    /// Whether the process could be opened.
    Opened(bool),
    /// The answer to a probe or a write.
    Memory(MemoryReply),
    /// The handle has been given back.
    Released,
}

/// The processes of a snapshot; none where it could not be taken.
pub open spec fn listed_processes(snapshot: Option<Vec<ProcessEntry>>) -> Seq<ProcessEntry> {
    match snapshot {
        Some(entries) => entries@,
        None => Seq::empty(),
    }
}

/// The modules of a snapshot; none where it could not be taken.
pub open spec fn listed_modules(snapshot: Option<Vec<ModuleEntry>>) -> Seq<ModuleEntry> {
    match snapshot {
        Some(entries) => entries@,
        None => Seq::empty(),
    }
}

/// The state of a run, as mathematics.
pub enum PipelineView {
    /// The process is being looked for.
    SeekingProcess { config: Config, payload: Seq<u8> },
    /// The process was not among those listed; the search resumes after a
    /// pause.
    Pausing { config: Config, payload: Seq<u8> },
    /// The process is known and its module is being looked for.
    SeekingModule { config: Config, payload: Seq<u8>, pid: u32 },
    /// The module's base is known and the process is being opened.
    Opening { config: Config, payload: Seq<u8>, pid: u32, base: usize },
    /// The process is open and the offsets are being patched.
    Patching { pid: u32, base: usize, patcher: PatcherView },
    /// Every offset has its outcome and the handle is still held.
    Releasing { pid: u32, base: usize, report: Seq<OffsetOutcome> },
    /// The run is over.
    Finished { verdict: Verdict, report: Seq<OffsetOutcome> },
}

impl PipelineView {
    /// Whether the run holds the handle of the opened process.
    pub open spec fn holds_handle(self) -> bool {
        self is Patching || self is Releasing
    }

    /// The process found, while the run knows one.
    pub open spec fn pid(self) -> Option<u32> {
        match self {
            PipelineView::SeekingModule { pid, .. }
            | PipelineView::Opening { pid, .. }
            | PipelineView::Patching { pid, .. }
            | PipelineView::Releasing { pid, .. } => Some(pid),
            _ => None,
        }
    }

    /// The module base found, while the run knows one.
    pub open spec fn base(self) -> Option<usize> {
        match self {
            PipelineView::Opening { base, .. }
            | PipelineView::Patching { base, .. }
            | PipelineView::Releasing { base, .. } => Some(base),
            _ => None,
        }
    }

    /// The payload, until every offset has its outcome or the run is over.
    pub open spec fn payload(self) -> Option<Seq<u8>> {
        match self {
            PipelineView::SeekingProcess { payload, .. }
            | PipelineView::Pausing { payload, .. }
            | PipelineView::SeekingModule { payload, .. }
            | PipelineView::Opening { payload, .. } => Some(payload),
            PipelineView::Patching { patcher, .. } => Some(patcher.payload),
            _ => None,
        }
    }

    /// Whether the run has outcomes to show: from the opening of the process
    /// on, and when it is over.
    pub open spec fn has_report(self) -> bool {
        self.holds_handle() || self is Finished
    }

    /// The outcomes of the offsets dealt with so far; none before the process
    /// is open.
    pub open spec fn report(self) -> Seq<OffsetOutcome> {
        match self {
            PipelineView::Patching { patcher, .. } => patcher.report,
            PipelineView::Releasing { report, .. } => report,
            PipelineView::Finished { report, .. } => report,
            _ => Seq::empty(),
        }
    }

    /// The offsets that the run is to patch, while patching lies ahead or is
    /// under way.
    pub open spec fn offsets(self) -> Seq<usize> {
        match self {
            PipelineView::SeekingProcess { config, .. }
            | PipelineView::Pausing { config, .. }
            | PipelineView::SeekingModule { config, .. }
            | PipelineView::Opening { config, .. } => config.offsets@,
            PipelineView::Patching { patcher, .. } => patcher.offsets,
            _ => Seq::empty(),
        }
    }

    /// How the run ended, once it has.
    pub open spec fn verdict(self) -> Option<Verdict> {
        match self {
            PipelineView::Finished { verdict, .. } => Some(verdict),
            _ => None,
        }
    }

    /// A run that is patching has an offset left to patch.
    pub open spec fn wf(self) -> bool {
        self matches PipelineView::Patching { patcher, .. } ==> patcher.wf() && !patcher.finished()
    }

    /// The state that follows the opening of the process, or an answer of its
    /// memory: patching goes on while an offset is left.
    pub open spec fn patching(pid: u32, base: usize, patcher: PatcherView) -> PipelineView {
        if patcher.finished() {
            PipelineView::Releasing { pid, base, report: patcher.report }
        } else {
            PipelineView::Patching { pid, base, patcher }
        }
    }

    /// What the system is asked next.
    pub open spec fn action(self) -> Action {
        match self {
            PipelineView::SeekingProcess { .. } => Action::ListProcesses,
            PipelineView::Pausing { .. } => Action::Pause,
            PipelineView::SeekingModule { pid, .. } => Action::ListModules { pid },
            PipelineView::Opening { pid, .. } => Action::OpenProcess {
                pid,
                rights: patching_rights(),
            },
            PipelineView::Patching { patcher, .. } => match patcher.action() {
                MemoryAction::Probe { address, length } => Action::Probe { address, length },
                MemoryAction::Write { address, length } => Action::Write { address, length },
                MemoryAction::Finished => Action::Release,
            },
            PipelineView::Releasing { .. } => Action::Release,
            PipelineView::Finished { .. } => Action::Stop,
        }
    }

    /// The state after `event`. An event that does not answer the pending
    /// action changes nothing.
    ///
    /// A process that is not found is looked for again after a pause, without
    /// end. A module that is not found, or a process that cannot be opened,
    /// ends the run. Once the process is open every offset is tried, and the
    /// run ends when the handle has been given back.
    pub open spec fn advanced(self, event: Event) -> PipelineView {
        match (self, event) {
            (PipelineView::SeekingProcess { config, payload }, Event::Processes(snapshot)) => {
                match found_process(listed_processes(snapshot), config.process_name@) {
                    Some(pid) => PipelineView::SeekingModule { config, payload, pid },
                    None => PipelineView::Pausing { config, payload },
                }
            },
            (PipelineView::Pausing { config, payload }, Event::Paused) => {
                PipelineView::SeekingProcess { config, payload }
            },
            (PipelineView::SeekingModule { config, payload, pid }, Event::Modules(snapshot)) => {
                match found_module_base(listed_modules(snapshot), config.module_name@) {
                    Some(base) => PipelineView::Opening { config, payload, pid, base },
                    None => PipelineView::Finished {
                        verdict: Verdict::ModuleNotFound,
                        report: Seq::empty(),
                    },
                }
            },
            (PipelineView::Opening { config, payload, pid, base }, Event::Opened(opened)) => {
                if opened {
                    Self::patching(
                        pid,
                        base,
                        PatcherView::start(base, config.offsets@, payload, config.probe_size),
                    )
                } else {
                    PipelineView::Finished {
                        verdict: Verdict::HandleUnavailable,
                        report: Seq::empty(),
                    }
                }
            },
            (PipelineView::Patching { pid, base, patcher }, Event::Memory(reply)) => {
                Self::patching(pid, base, patcher.advanced(reply))
            },
            (PipelineView::Releasing { report, .. }, Event::Released) => {
                PipelineView::Finished { verdict: Verdict::Completed, report }
            },
            (state, _) => state,
        }
    }
}

enum Stage {
    SeekingProcess { config: Config, payload: Vec<u8> },
    Pausing { config: Config, payload: Vec<u8> },
    SeekingModule { config: Config, payload: Vec<u8>, pid: u32 },
    Opening { config: Config, payload: Vec<u8>, pid: u32, base: usize },
    Patching { pid: u32, base: usize, patcher: Patcher },
    Releasing { pid: u32, base: usize, report: Vec<OffsetOutcome> },
    Finished { verdict: Verdict, report: Vec<OffsetOutcome> },
}

/// One run from the search for the process to the release of its handle. It
/// decides; whoever drives it does what `action` asks and hands the answer to
/// `advance`.
pub struct Pipeline {
    stage: Stage,
}

impl View for Pipeline {
    type V = PipelineView;

    closed spec fn view(&self) -> PipelineView {
        match self.stage {
            Stage::SeekingProcess { config, payload } => PipelineView::SeekingProcess {
                config,
                payload: payload@,
            },
            Stage::Pausing { config, payload } => PipelineView::Pausing { config, payload: payload@ },
            Stage::SeekingModule { config, payload, pid } => PipelineView::SeekingModule {
                config,
                payload: payload@,
                pid,
            },
            Stage::Opening { config, payload, pid, base } => PipelineView::Opening {
                config,
                payload: payload@,
                pid,
                base,
            },
            Stage::Patching { pid, base, patcher } => PipelineView::Patching {
                pid,
                base,
                patcher: patcher@,
            },
            Stage::Releasing { pid, base, report } => PipelineView::Releasing {
                pid,
                base,
                report: report@,
            },
            Stage::Finished { verdict, report } => PipelineView::Finished {
                verdict,
                report: report@,
            },
        }
    }
}

fn patching(pid: u32, base: usize, patcher: Patcher) -> (stage: Stage)
    requires
        patcher@.wf(),
    ensures
        (Pipeline { stage })@ == PipelineView::patching(pid, base, patcher@),
        (Pipeline { stage })@.wf(),
{
    if patcher.is_finished() {
        Stage::Releasing { pid, base, report: patcher.into_report() }
    } else {
        Stage::Patching { pid, base, patcher }
    }
}

impl Pipeline {
    /// Begins a run that is to write `payload` at the offsets of `config`.
    pub fn start(config: Config, payload: Vec<u8>) -> (pipeline: Pipeline)
        ensures
            pipeline@ == (PipelineView::SeekingProcess { config, payload: payload@ }),
            pipeline@.wf(),
    {
        Pipeline { stage: Stage::SeekingProcess { config, payload } }
    }

    /// What to ask of the system now.
    pub fn action(&self) -> (action: Action)
        requires
            self@.wf(),
        ensures
            action == self@.action(),
    {
        match &self.stage {
            Stage::SeekingProcess { .. } => Action::ListProcesses,
            Stage::Pausing { .. } => Action::Pause,
            Stage::SeekingModule { pid, .. } => Action::ListModules { pid: *pid },
            Stage::Opening { pid, .. } => Action::OpenProcess {
                pid: *pid,
                rights: AccessRights::for_patching(),
            },
            Stage::Patching { patcher, .. } => match patcher.action() {
                MemoryAction::Probe { address, length } => Action::Probe { address, length },
                MemoryAction::Write { address, length } => Action::Write { address, length },
                MemoryAction::Finished => Action::Release,
            },
            Stage::Releasing { .. } => Action::Release,
            Stage::Finished { .. } => Action::Stop,
        }
    }

    /// Takes the answer to the pending action.
    pub fn advance(self, event: Event) -> (next: Pipeline)
        requires
            self@.wf(),
        ensures
            next@ == self@.advanced(event),
            next@.wf(),
    {
        let stage = match (self.stage, event) {
            (Stage::SeekingProcess { config, payload }, Event::Processes(snapshot)) => {
                let found = match &snapshot {
                    Some(entries) => find_process(entries, config.process_name.as_str()),
                    None => None,
                };
                match found {
                    Some(pid) => Stage::SeekingModule { config, payload, pid },
                    None => Stage::Pausing { config, payload },
                }
            },
            (Stage::Pausing { config, payload }, Event::Paused) => {
                Stage::SeekingProcess { config, payload }
            },
            (Stage::SeekingModule { config, payload, pid }, Event::Modules(snapshot)) => {
                let found = match &snapshot {
                    Some(entries) => find_module_base(entries, config.module_name.as_str()),
                    None => None,
                };
                match found {
                    Some(base) => Stage::Opening { config, payload, pid, base },
                    None => Stage::Finished { verdict: Verdict::ModuleNotFound, report: Vec::new() },
                }
            },
            (Stage::Opening { config, payload, pid, base }, Event::Opened(opened)) => {
                if opened {
                    patching(pid, base, Patcher::new(base, config.offsets, payload, config.probe_size))
                } else {
                    Stage::Finished { verdict: Verdict::HandleUnavailable, report: Vec::new() }
                }
            },
            (Stage::Patching { pid, base, patcher }, Event::Memory(reply)) => {
                let mut patcher = patcher;
                patcher.advance(reply);
                patching(pid, base, patcher)
            },
            (Stage::Releasing { report, .. }, Event::Released) => {
                Stage::Finished { verdict: Verdict::Completed, report }
            },
            (stage, _) => stage,
        };
        Pipeline { stage }
    }

    /// The bytes that a write is to write, while the run still has them.
    pub fn payload(&self) -> (payload: Option<&Vec<u8>>)
        ensures
            match payload {
                Some(bytes) => self@.payload() == Some(bytes@),
                None => self@.payload() is None,
            },
    {
        match &self.stage {
            Stage::SeekingProcess { payload, .. } => Some(payload),
            Stage::Pausing { payload, .. } => Some(payload),
            Stage::SeekingModule { payload, .. } => Some(payload),
            Stage::Opening { payload, .. } => Some(payload),
            Stage::Patching { patcher, .. } => Some(patcher.payload()),
            _ => None,
        }
    }

    /// The process found, once it is found and until the run is over.
    pub fn pid(&self) -> (pid: Option<u32>)
        ensures
            pid == self@.pid(),
    {
        match &self.stage {
            Stage::SeekingModule { pid, .. } => Some(*pid),
            Stage::Opening { pid, .. } => Some(*pid),
            Stage::Patching { pid, .. } => Some(*pid),
            Stage::Releasing { pid, .. } => Some(*pid),
            _ => None,
        }
    }

    /// The base of the module found, once it is found and until the run is
    /// over.
    pub fn base(&self) -> (base: Option<usize>)
        ensures
            base == self@.base(),
    {
        match &self.stage {
            Stage::Opening { base, .. } => Some(*base),
            Stage::Patching { base, .. } => Some(*base),
            Stage::Releasing { base, .. } => Some(*base),
            _ => None,
        }
    }

    /// The outcomes of the offsets dealt with so far, in table order, once
    /// the process has been opened or the run is over.
    pub fn report(&self) -> (report: Option<&Vec<OffsetOutcome>>)
        ensures
            match report {
                Some(outcomes) => self@.has_report() && outcomes@ == self@.report(),
                None => !self@.has_report(),
            },
    {
        match &self.stage {
            Stage::Patching { patcher, .. } => Some(patcher.report()),
            Stage::Releasing { report, .. } => Some(report),
            Stage::Finished { report, .. } => Some(report),
            _ => None,
        }
    }

    /// How the run ended, once it has.
    pub fn verdict(&self) -> (verdict: Option<Verdict>)
        ensures
            verdict == self@.verdict(),
    {
        match &self.stage {
            Stage::Finished { verdict, .. } => Some(*verdict),
            _ => None,
        }
    }
}

/// A process that is not found never ends the run: whatever the system
/// answers while the process is sought, the run seeks on, pauses, or has
/// found it.
pub proof fn lemma_search_never_gives_up(state: PipelineView, event: Event)
    requires
        state is SeekingProcess || state is Pausing,
    ensures
        state.advanced(event) is SeekingProcess || state.advanced(event) is Pausing
            || state.advanced(event) is SeekingModule,
        state is SeekingProcess && event is Processes ==> (state.advanced(event) is Pausing
            <==> found_process(
            listed_processes(event->Processes_0),
            state->SeekingProcess_config.process_name@,
        ) is None),
{
}

/// The handle is taken when the process opens and at no other time; it is
/// held until the run asks for its release and is told of it, which ends the
/// run; and a run that is over stays over.
pub proof fn lemma_handle_is_released_once(state: PipelineView, event: Event)
    requires
        state.wf(),
    ensures
        state.advanced(event).wf(),
        !state.holds_handle() && state.advanced(event).holds_handle() ==> state is Opening
            && event == Event::Opened(true),
        state.holds_handle() && !state.advanced(event).holds_handle() ==> state.action()
            == Action::Release && event is Released && state.advanced(event).verdict() == Some(
            Verdict::Completed,
        ),
        state.holds_handle() ==> state.action() != Action::Stop,
        state is Finished ==> state.advanced(event) == state,
        state.advanced(event).verdict() == Some(Verdict::Completed) ==> state is Finished
            || state.holds_handle(),
{
    match (state, event) {
        (PipelineView::Opening { config, payload, pid, base }, Event::Opened(opened)) => {
            lemma_start_is_well_formed(
                base,
                config.offsets@,
                payload,
                config.probe_size,
            );
        },
        (PipelineView::Patching { patcher, .. }, Event::Memory(reply)) => {
            lemma_outcomes_stay(patcher, reply);
        },
        _ => {},
    }
}

/// When patching is over every offset of the table has exactly one outcome,
/// and the outcomes that were there stay as they were up to the end of the
/// run.
pub proof fn lemma_every_offset_gets_an_outcome(state: PipelineView, event: Event)
    requires
        state.wf(),
    ensures
        (state is Opening || state is Patching) && state.advanced(event) is Releasing
            ==> state.advanced(event).report().len() == state.offsets().len(),
        state is Patching && state.advanced(event) is Patching ==> state.advanced(event).offsets()
            == state.offsets(),
        state.holds_handle() ==> state.advanced(event).report().take(
            state.report().len() as int,
        ) == state.report(),
        !state.holds_handle() && !(state is Opening) ==> state.advanced(event).report()
            == state.report(),
{
    match (state, event) {
        (PipelineView::Opening { config, payload, pid, base }, Event::Opened(opened)) => {
            lemma_start_is_well_formed(
                base,
                config.offsets@,
                payload,
                config.probe_size,
            );
        },
        (PipelineView::Patching { patcher, .. }, Event::Memory(reply)) => {
            lemma_outcomes_stay(patcher, reply);
        },
        _ => {},
    }
    assert(state.report().take(state.report().len() as int) =~= state.report());
}

} // verus!
