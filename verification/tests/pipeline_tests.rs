use version_patcher::locate::{ModuleEntry, ProcessEntry};
use version_patcher::patch::{MemoryReply, OffsetOutcome};
use version_patcher::pipeline::{AccessRights, Action, Config, Event, Pipeline, Verdict};
use version_patcher::version::encode;

fn config(offsets: Vec<usize>) -> Config {
    Config {
        process_name: String::from("wechat.exe"),
        module_name: String::from("WeChatWin.dll"),
        probe_size: 16,
        offsets,
    }
}

fn all_rights() -> AccessRights {
    AccessRights { read: true, write: true, operate: true, query: true }
}

fn process(pid: u32, name: &str) -> ProcessEntry {
    ProcessEntry { pid, exe_file: name.as_bytes().to_vec() }
}

fn module(base: usize, name: &str) -> ModuleEntry {
    ModuleEntry { base, module: name.as_bytes().to_vec() }
}

/// A stand-in for the system: processes that appear after some listings,
/// modules by process, and a memory that fails where it is told to.
struct FakeSystem {
    processes: Vec<(u32, String)>,
    listings_before_processes_appear: usize,
    process_listing_fails: bool,
    modules: Vec<(u32, usize, String)>,
    module_listing_fails: bool,
    cannot_open: bool,
    unreadable: Vec<usize>,
    unwritable: Vec<usize>,
    process_listings: usize,
    pauses: usize,
    opened: Vec<u32>,
    releases: usize,
    probes: Vec<(usize, usize)>,
    writes: Vec<(usize, Vec<u8>)>,
    actions: Vec<Action>,
}

impl FakeSystem {
    fn new() -> FakeSystem {
        FakeSystem {
            processes: vec![(42, String::from("wechat.exe"))],
            listings_before_processes_appear: 0,
            process_listing_fails: false,
            modules: vec![(42, 0x1000, String::from("WeChatWin.dll"))],
            module_listing_fails: false,
            cannot_open: false,
            unreadable: Vec::new(),
            unwritable: Vec::new(),
            process_listings: 0,
            pauses: 0,
            opened: Vec::new(),
            releases: 0,
            probes: Vec::new(),
            writes: Vec::new(),
            actions: Vec::new(),
        }
    }

    fn answer(&mut self, pipeline: &Pipeline, action: Action) -> Event {
        match action {
            Action::ListProcesses => {
                self.process_listings += 1;
                if self.process_listing_fails {
                    Event::Processes(None)
                } else if self.process_listings <= self.listings_before_processes_appear {
                    Event::Processes(Some(vec![process(4, "System"), process(900, "explorer.exe")]))
                } else {
                    let mut listed = vec![process(4, "System")];
                    for (pid, name) in &self.processes {
                        listed.push(process(*pid, name));
                    }
                    Event::Processes(Some(listed))
                }
            }
            Action::Pause => {
                self.pauses += 1;
                Event::Paused
            }
            Action::ListModules { pid } => {
                if self.module_listing_fails {
                    Event::Modules(None)
                } else {
                    let mut listed = vec![module(0x400000, "WeChat.exe")];
                    for (owner, base, name) in &self.modules {
                        if *owner == pid {
                            listed.push(module(*base, name));
                        }
                    }
                    Event::Modules(Some(listed))
                }
            }
            Action::OpenProcess { pid, rights } => {
                assert_eq!(rights, all_rights());
                if self.cannot_open {
                    Event::Opened(false)
                } else {
                    self.opened.push(pid);
                    Event::Opened(true)
                }
            }
            Action::Probe { address, length } => {
                self.probes.push((address, length));
                if self.unreadable.contains(&address) {
                    Event::Memory(MemoryReply::ReadFailed)
                } else {
                    Event::Memory(MemoryReply::Read { bytes: length })
                }
            }
            Action::Write { address, length } => {
                let payload = pipeline.payload().expect("a write has a payload");
                self.writes.push((address, payload[..length].to_vec()));
                if self.unwritable.contains(&address) {
                    Event::Memory(MemoryReply::WriteFailed)
                } else {
                    Event::Memory(MemoryReply::Written)
                }
            }
            Action::Release => {
                self.releases += 1;
                Event::Released
            }
            Action::Stop => unreachable!("a run that is over asks nothing"),
        }
    }

    /// Drives the run until it is over, or for `limit` actions.
    fn drive(&mut self, mut pipeline: Pipeline, limit: usize) -> Pipeline {
        for _ in 0..limit {
            let action = pipeline.action();
            if action == Action::Stop {
                break;
            }
            self.actions.push(action);
            let event = self.answer(&pipeline, action);
            pipeline = pipeline.advance(event);
        }
        pipeline
    }
}

#[test]
fn pipeline_patches_the_default_version_end_to_end() {
    let mut system = FakeSystem::new();
    let pipeline = Pipeline::start(config(vec![0x10]), encode("4.0.5.18"));
    let pipeline = system.drive(pipeline, 100);
    assert_eq!(pipeline.verdict(), Some(Verdict::Completed));
    assert_eq!(pipeline.report(), Some(&vec![OffsetOutcome::Patched]));
    assert_eq!(system.writes, vec![(0x1010, vec![18, 5, 0, 100])]);
    assert_eq!(system.probes, vec![(0x1010, 16)]);
    assert_eq!(system.opened, vec![42]);
    assert_eq!(system.releases, 1);
    assert_eq!(
        system.actions,
        vec![
            Action::ListProcesses,
            Action::ListModules { pid: 42 },
            Action::OpenProcess { pid: 42, rights: all_rights() },
            Action::Probe { address: 0x1010, length: 16 },
            Action::Write { address: 0x1010, length: 4 },
            Action::Release,
        ]
    );
}

#[test]
fn pipeline_asks_for_all_four_rights() {
    assert_eq!(AccessRights::for_patching(), all_rights());
    let pipeline = Pipeline::start(config(vec![0x10]), vec![1, 2, 3, 4]);
    let pipeline = pipeline.advance(Event::Processes(Some(vec![process(9, "wechat.exe")])));
    let pipeline = pipeline.advance(Event::Modules(Some(vec![module(0x7000, "wechatwin.dll")])));
    assert_eq!(
        pipeline.action(),
        Action::OpenProcess {
            pid: 9,
            rights: AccessRights { read: true, write: true, operate: true, query: true },
        }
    );
}

#[test]
fn pipeline_starts_by_listing_processes() {
    let pipeline = Pipeline::start(config(vec![0x10]), vec![1, 2, 3, 4]);
    assert_eq!(pipeline.action(), Action::ListProcesses);
    assert_eq!(pipeline.pid(), None);
    assert_eq!(pipeline.base(), None);
    assert_eq!(pipeline.verdict(), None);
    assert_eq!(pipeline.report(), None);
    assert_eq!(pipeline.payload(), Some(&vec![1, 2, 3, 4]));
}

#[test]
fn pipeline_waits_until_the_process_appears() {
    let mut system = FakeSystem::new();
    system.listings_before_processes_appear = 3;
    let pipeline = Pipeline::start(config(vec![0x10]), encode("3.7.0.30"));
    let pipeline = system.drive(pipeline, 100);
    assert_eq!(pipeline.verdict(), Some(Verdict::Completed));
    assert_eq!(system.process_listings, 4);
    assert_eq!(system.pauses, 3);
    assert_eq!(system.writes, vec![(0x1010, vec![30, 0, 7, 99])]);
    assert_eq!(
        &system.actions[..7],
        &[
            Action::ListProcesses,
            Action::Pause,
            Action::ListProcesses,
            Action::Pause,
            Action::ListProcesses,
            Action::Pause,
            Action::ListProcesses,
        ]
    );
}

#[test]
fn pipeline_never_gives_up_the_search() {
    let mut system = FakeSystem::new();
    system.processes.clear();
    let pipeline = Pipeline::start(config(vec![0x10]), vec![1, 2, 3, 4]);
    let pipeline = system.drive(pipeline, 1000);
    assert_eq!(pipeline.verdict(), None);
    assert_eq!(system.process_listings, 500);
    assert_eq!(system.pauses, 500);
    assert!(system.opened.is_empty());
}

#[test]
fn pipeline_takes_a_failed_process_listing_as_nothing_found() {
    let mut system = FakeSystem::new();
    system.process_listing_fails = true;
    let pipeline = Pipeline::start(config(vec![0x10]), vec![1, 2, 3, 4]);
    let pipeline = system.drive(pipeline, 10);
    assert_eq!(pipeline.verdict(), None);
    assert_eq!(system.pauses, 5);
    assert_eq!(pipeline.action(), Action::ListProcesses);
}

#[test]
fn pipeline_ends_when_the_module_is_not_found() {
    let mut system = FakeSystem::new();
    system.modules.clear();
    let pipeline = Pipeline::start(config(vec![0x10]), vec![1, 2, 3, 4]);
    let pipeline = system.drive(pipeline, 100);
    assert_eq!(pipeline.verdict(), Some(Verdict::ModuleNotFound));
    assert_eq!(pipeline.report(), Some(&Vec::new()));
    assert_eq!(pipeline.action(), Action::Stop);
    assert!(system.opened.is_empty());
    assert!(system.probes.is_empty());
    assert!(system.writes.is_empty());
    assert_eq!(system.releases, 0);
    assert_eq!(system.actions, vec![Action::ListProcesses, Action::ListModules { pid: 42 }]);
}

#[test]
fn pipeline_takes_a_failed_module_listing_as_nothing_found() {
    let mut system = FakeSystem::new();
    system.module_listing_fails = true;
    let pipeline = Pipeline::start(config(vec![0x10]), vec![1, 2, 3, 4]);
    let pipeline = system.drive(pipeline, 100);
    assert_eq!(pipeline.verdict(), Some(Verdict::ModuleNotFound));
    assert_eq!(system.releases, 0);
}

#[test]
fn pipeline_ends_when_the_process_cannot_be_opened() {
    let mut system = FakeSystem::new();
    system.cannot_open = true;
    let pipeline = Pipeline::start(config(vec![0x10]), vec![1, 2, 3, 4]);
    let pipeline = system.drive(pipeline, 100);
    assert_eq!(pipeline.verdict(), Some(Verdict::HandleUnavailable));
    assert!(system.probes.is_empty());
    assert!(system.writes.is_empty());
    assert_eq!(system.releases, 0);
    assert_eq!(pipeline.payload(), None);
}

#[test]
fn pipeline_goes_on_after_a_failed_offset() {
    let mut system = FakeSystem::new();
    system.unreadable.push(0x1020);
    system.unwritable.push(0x1030);
    let pipeline = Pipeline::start(config(vec![0x10, 0x20, 0x30, 0x40]), encode("16.0.0.0"));
    let pipeline = system.drive(pipeline, 100);
    assert_eq!(pipeline.verdict(), Some(Verdict::Completed));
    assert_eq!(
        pipeline.report(),
        Some(&vec![
            OffsetOutcome::Patched,
            OffsetOutcome::ReadFailed,
            OffsetOutcome::WriteFailed,
            OffsetOutcome::Patched,
        ])
    );
    assert_eq!(system.probes, vec![(0x1010, 16), (0x1020, 16), (0x1030, 16), (0x1040, 16)]);
    assert_eq!(
        system.writes,
        vec![
            (0x1010, vec![0, 0, 0, 0, 0x61]),
            (0x1030, vec![0, 0, 0, 0, 0x61]),
            (0x1040, vec![0, 0, 0, 0, 0x61]),
        ]
    );
    assert_eq!(system.releases, 1);
}

#[test]
fn pipeline_releases_the_handle_when_every_offset_failed() {
    let mut system = FakeSystem::new();
    system.unreadable = vec![0x1010, 0x1020];
    let pipeline = Pipeline::start(config(vec![0x10, 0x20]), vec![1, 2, 3, 4]);
    let pipeline = system.drive(pipeline, 100);
    assert_eq!(pipeline.verdict(), Some(Verdict::Completed));
    assert_eq!(
        pipeline.report(),
        Some(&vec![OffsetOutcome::ReadFailed, OffsetOutcome::ReadFailed])
    );
    assert!(system.writes.is_empty());
    assert_eq!(system.releases, 1);
}

#[test]
fn pipeline_releases_the_handle_of_an_empty_table() {
    let mut system = FakeSystem::new();
    let pipeline = Pipeline::start(config(Vec::new()), vec![1, 2, 3, 4]);
    let pipeline = system.drive(pipeline, 100);
    assert_eq!(pipeline.verdict(), Some(Verdict::Completed));
    assert_eq!(pipeline.report(), Some(&Vec::new()));
    assert_eq!(system.opened, vec![42]);
    assert_eq!(system.releases, 1);
    assert!(system.probes.is_empty());
}

#[test]
fn pipeline_tells_what_it_has_found() {
    let pipeline = Pipeline::start(config(vec![0x10]), vec![1, 2, 3, 4]);
    let pipeline = pipeline.advance(Event::Processes(Some(vec![process(42, "WeChat.exe")])));
    assert_eq!(pipeline.action(), Action::ListModules { pid: 42 });
    assert_eq!(pipeline.pid(), Some(42));
    assert_eq!(pipeline.base(), None);
    let pipeline = pipeline.advance(Event::Modules(Some(vec![module(0x7000, "wechatwin.dll")])));
    assert_eq!(pipeline.action(), Action::OpenProcess { pid: 42, rights: all_rights() });
    assert_eq!(pipeline.base(), Some(0x7000));
    assert_eq!(pipeline.report(), None);
    let pipeline = pipeline.advance(Event::Opened(true));
    assert_eq!(pipeline.action(), Action::Probe { address: 0x7010, length: 16 });
    assert_eq!(pipeline.report(), Some(&Vec::new()));
    assert_eq!(pipeline.payload(), Some(&vec![1, 2, 3, 4]));
    let pipeline = pipeline.advance(Event::Memory(MemoryReply::Read { bytes: 16 }));
    assert_eq!(pipeline.action(), Action::Write { address: 0x7010, length: 4 });
    let pipeline = pipeline.advance(Event::Memory(MemoryReply::Written));
    assert_eq!(pipeline.action(), Action::Release);
    assert_eq!(pipeline.pid(), Some(42));
    assert_eq!(pipeline.base(), Some(0x7000));
    assert_eq!(pipeline.verdict(), None);
    assert_eq!(pipeline.payload(), None);
    let pipeline = pipeline.advance(Event::Released);
    assert_eq!(pipeline.action(), Action::Stop);
    assert_eq!(pipeline.verdict(), Some(Verdict::Completed));
    assert_eq!(pipeline.report(), Some(&vec![OffsetOutcome::Patched]));
    assert_eq!(pipeline.pid(), None);
}

#[test]
fn pipeline_ignores_an_answer_to_what_it_did_not_ask() {
    let pipeline = Pipeline::start(config(vec![0x10]), vec![1, 2, 3, 4]);
    let pipeline = pipeline.advance(Event::Paused);
    let pipeline = pipeline.advance(Event::Opened(true));
    let pipeline = pipeline.advance(Event::Released);
    let pipeline = pipeline.advance(Event::Memory(MemoryReply::Written));
    let pipeline = pipeline.advance(Event::Modules(Some(vec![module(0x7000, "wechatwin.dll")])));
    assert_eq!(pipeline.action(), Action::ListProcesses);

    let pipeline = pipeline.advance(Event::Processes(Some(vec![process(42, "wechat.exe")])));
    let pipeline = pipeline.advance(Event::Processes(Some(Vec::new())));
    let pipeline = pipeline.advance(Event::Opened(true));
    assert_eq!(pipeline.action(), Action::ListModules { pid: 42 });

    let pipeline = pipeline.advance(Event::Modules(Some(vec![module(0x7000, "wechatwin.dll")])));
    let pipeline = pipeline.advance(Event::Released);
    assert_eq!(pipeline.action(), Action::OpenProcess { pid: 42, rights: all_rights() });

    let pipeline = pipeline.advance(Event::Opened(true));
    let pipeline = pipeline.advance(Event::Released);
    let pipeline = pipeline.advance(Event::Opened(false));
    assert_eq!(pipeline.action(), Action::Probe { address: 0x7010, length: 16 });

    let pipeline = pipeline.advance(Event::Memory(MemoryReply::ReadFailed));
    let pipeline = pipeline.advance(Event::Memory(MemoryReply::ReadFailed));
    assert_eq!(pipeline.action(), Action::Release);
    let pipeline = pipeline.advance(Event::Released);
    let pipeline = pipeline.advance(Event::Released);
    let pipeline = pipeline.advance(Event::Processes(None));
    assert_eq!(pipeline.action(), Action::Stop);
    assert_eq!(pipeline.report(), Some(&vec![OffsetOutcome::ReadFailed]));
}

#[test]
fn pipeline_with_a_malformed_version_writes_the_fallback() {
    let mut system = FakeSystem::new();
    let pipeline = Pipeline::start(config(vec![0x10]), encode("not.a.version"));
    let pipeline = system.drive(pipeline, 100);
    assert_eq!(pipeline.verdict(), Some(Verdict::Completed));
    assert_eq!(system.writes, vec![(0x1010, vec![18, 5, 0, 100])]);
}
