use vstd::prelude::*;
use crate::text::{contains, from_utf8_lossy, lowercase_chars, lowercase_of, occurs_in, utf8_lossy_of};

verus! {

/// One process of a snapshot of the running processes.
#[derive(Debug)]
pub struct ProcessEntry {
    /// The identifier of the process.
    pub pid: u32,
    /// The bytes of the executable's file name, as the system reported them.
    pub exe_file: Vec<u8>,
}

/// One module of a snapshot of the modules loaded in a process.
#[derive(Debug)]
pub struct ModuleEntry {
    /// The address at which the module is mapped in its process.
    pub base: usize,
    /// The bytes of the module's name, as the system reported them.
    pub module: Vec<u8>,
}

/// Whether a reported name holds `wanted`, letter case aside: the lower-case
/// form of `wanted` stands in the lower-case form of the name's text.
pub open spec fn name_matches(raw: Seq<u8>, wanted: Seq<char>) -> bool {
    occurs_in(lowercase_of(utf8_lossy_of(raw)), lowercase_of(wanted))
}

/// The index of the first name at or after `from` that holds `wanted`.
pub open spec fn first_match_from(names: Seq<Seq<u8>>, wanted: Seq<char>, from: int) -> Option<int>
    decreases names.len() - from,
{
    if from < 0 || from >= names.len() {
        None
    } else if name_matches(names[from], wanted) {
        Some(from)
    } else {
        first_match_from(names, wanted, from + 1)
    }
}

/// The index of the first name that holds `wanted`.
pub open spec fn first_match(names: Seq<Seq<u8>>, wanted: Seq<char>) -> Option<int> {
    first_match_from(names, wanted, 0)
}

/// The executable names of a process snapshot, in its order.
pub open spec fn process_names(snapshot: Seq<ProcessEntry>) -> Seq<Seq<u8>> {
    Seq::new(snapshot.len(), |i: int| snapshot[i].exe_file@)
}

/// The module names of a module snapshot, in its order.
pub open spec fn module_names(snapshot: Seq<ModuleEntry>) -> Seq<Seq<u8>> {
    Seq::new(snapshot.len(), |i: int| snapshot[i].module@)
}

/// The identifier of the first process of the snapshot whose executable name
/// holds `wanted`.
pub open spec fn found_process(snapshot: Seq<ProcessEntry>, wanted: Seq<char>) -> Option<u32> {
    match first_match(process_names(snapshot), wanted) {
        Some(i) => Some(snapshot[i].pid),
        None => None,
    }
}

/// The base address of the first module of the snapshot whose name holds
/// `wanted`.
pub open spec fn found_module_base(snapshot: Seq<ModuleEntry>, wanted: Seq<char>) -> Option<usize> {
    match first_match(module_names(snapshot), wanted) {
        Some(i) => Some(snapshot[i].base),
        None => None,
    }
}

/// Whether a name given in lower case stands in the lower-case form of a
/// reported name.
pub fn holds_name(raw: &Vec<u8>, wanted_lower: &Vec<char>) -> (found: bool)
    ensures
        found == occurs_in(lowercase_of(utf8_lossy_of(raw@)), wanted_lower@),
{
    let text = from_utf8_lossy(raw);
    let lower = lowercase_chars(text.as_str());
    contains(&lower, wanted_lower)
}

/// Finds a process by a part of its executable name, letter case aside: the
/// first of the snapshot that matches. An empty snapshot, as one that could
/// not be taken, holds none.
pub fn find_process(snapshot: &Vec<ProcessEntry>, name_substring: &str) -> (found: Option<u32>)
    ensures
        found == found_process(snapshot@, name_substring@),
{
    let wanted = lowercase_chars(name_substring);
    let ghost names = process_names(snapshot@);
    let mut i: usize = 0;
    while i < snapshot.len()
        invariant
            i <= snapshot.len(),
            names == process_names(snapshot@),
            wanted@ == lowercase_of(name_substring@),
            first_match_from(names, name_substring@, i as int) == first_match(
                names,
                name_substring@,
            ),
        decreases snapshot.len() - i,
    {
        if holds_name(&snapshot[i].exe_file, &wanted) {
            return Some(snapshot[i].pid);
        }
        i += 1;
    }
    None
}

/// Finds a module by a part of its name, letter case aside, and gives its
/// base address: that of the first of the snapshot that matches.
pub fn find_module_base(snapshot: &Vec<ModuleEntry>, name_substring: &str) -> (found: Option<usize>)
    ensures
        found == found_module_base(snapshot@, name_substring@),
{
    let wanted = lowercase_chars(name_substring);
    let ghost names = module_names(snapshot@);
    let mut i: usize = 0;
    while i < snapshot.len()
        invariant
            i <= snapshot.len(),
            names == module_names(snapshot@),
            wanted@ == lowercase_of(name_substring@),
            first_match_from(names, name_substring@, i as int) == first_match(
                names,
                name_substring@,
            ),
        decreases snapshot.len() - i,
    {
        if holds_name(&snapshot[i].module, &wanted) {
            return Some(snapshot[i].base);
        }
        i += 1;
    }
    None
}

/// The first match is a match, nothing before it is one, and where there is
/// none, no name matches.
pub proof fn lemma_first_match_is_first(names: Seq<Seq<u8>>, wanted: Seq<char>)
    ensures
        match first_match(names, wanted) {
            Some(i) => 0 <= i < names.len() && name_matches(names[i], wanted) && forall|j: int|
                0 <= j < i ==> !name_matches(#[trigger] names[j], wanted),
            None => forall|j: int| 0 <= j < names.len() ==> !name_matches(#[trigger] names[j], wanted),
        },
{
    lemma_first_match_from(names, wanted, 0);
}

proof fn lemma_first_match_from(names: Seq<Seq<u8>>, wanted: Seq<char>, from: int)
    requires
        0 <= from,
    ensures
        match first_match_from(names, wanted, from) {
            Some(i) => from <= i < names.len() && name_matches(names[i], wanted) && forall|j: int|
                from <= j < i ==> !name_matches(#[trigger] names[j], wanted),
            None => forall|j: int|
                from <= j < names.len() ==> !name_matches(#[trigger] names[j], wanted),
        },
    decreases names.len() - from,
{
    if from < names.len() && !name_matches(names[from], wanted) {
        lemma_first_match_from(names, wanted, from + 1);
    }
}

/// The process found is the first of the snapshot whose name holds `wanted`,
/// and none is found exactly when no name does. The same holds of the module
/// whose base is found.
pub proof fn lemma_found_is_first_match(
    processes: Seq<ProcessEntry>,
    modules: Seq<ModuleEntry>,
    wanted: Seq<char>,
)
    ensures
        match found_process(processes, wanted) {
            Some(pid) => exists|i: int|
                0 <= i < processes.len() && processes[i].pid == pid && name_matches(
                    #[trigger] processes[i].exe_file@,
                    wanted,
                ) && forall|j: int|
                    0 <= j < i ==> !name_matches(#[trigger] processes[j].exe_file@, wanted),
            None => true,
        },
        found_process(processes, wanted) is None <==> forall|i: int|
            0 <= i < processes.len() ==> !name_matches(#[trigger] processes[i].exe_file@, wanted),
        match found_module_base(modules, wanted) {
            Some(base) => exists|i: int|
                0 <= i < modules.len() && modules[i].base == base && name_matches(
                    #[trigger] modules[i].module@,
                    wanted,
                ) && forall|j: int|
                    0 <= j < i ==> !name_matches(#[trigger] modules[j].module@, wanted),
            None => true,
        },
        found_module_base(modules, wanted) is None <==> forall|i: int|
            0 <= i < modules.len() ==> !name_matches(#[trigger] modules[i].module@, wanted),
{
    let process_names = process_names(processes);
    lemma_first_match_is_first(process_names, wanted);
    assert forall|j: int| 0 <= j < processes.len() implies process_names[j]
        == #[trigger] processes[j].exe_file@ by {}
    match first_match(process_names, wanted) {
        Some(i) => {
            assert(name_matches(processes[i].exe_file@, wanted));
            assert forall|j: int| 0 <= j < i implies !name_matches(
                #[trigger] processes[j].exe_file@,
                wanted,
            ) by {
                assert(!name_matches(process_names[j], wanted));
            }
        },
        None => {
            assert forall|j: int| 0 <= j < processes.len() implies !name_matches(
                #[trigger] processes[j].exe_file@,
                wanted,
            ) by {
                assert(!name_matches(process_names[j], wanted));
            }
        },
    }
    let module_names = module_names(modules);
    lemma_first_match_is_first(module_names, wanted);
    assert forall|j: int| 0 <= j < modules.len() implies module_names[j]
        == #[trigger] modules[j].module@ by {}
    match first_match(module_names, wanted) {
        Some(i) => {
            assert(name_matches(modules[i].module@, wanted));
            assert forall|j: int| 0 <= j < i implies !name_matches(
                #[trigger] modules[j].module@,
                wanted,
            ) by {
                assert(!name_matches(module_names[j], wanted));
            }
        },
        None => {
            assert forall|j: int| 0 <= j < modules.len() implies !name_matches(
                #[trigger] modules[j].module@,
                wanted,
            ) by {
                assert(!name_matches(module_names[j], wanted));
            }
        },
    }
}

/// Two spellings of a name that differ in letter case only find the same
/// process and the same module.
pub proof fn lemma_letter_case_is_ignored(
    processes: Seq<ProcessEntry>,
    modules: Seq<ModuleEntry>,
    wanted: Seq<char>,
    respelled: Seq<char>,
)
    requires
        lowercase_of(wanted) == lowercase_of(respelled),
    ensures
        found_process(processes, wanted) == found_process(processes, respelled),
        found_module_base(modules, wanted) == found_module_base(modules, respelled),
{
    lemma_same_first_match(process_names(processes), wanted, respelled, 0);
    lemma_same_first_match(module_names(modules), wanted, respelled, 0);
}

proof fn lemma_same_first_match(
    names: Seq<Seq<u8>>,
    wanted: Seq<char>,
    respelled: Seq<char>,
    from: int,
)
    requires
        lowercase_of(wanted) == lowercase_of(respelled),
    ensures
        first_match_from(names, wanted, from) == first_match_from(names, respelled, from),
    decreases names.len() - from,
{
    if 0 <= from < names.len() && !name_matches(names[from], wanted) {
        lemma_same_first_match(names, wanted, respelled, from + 1);
    }
}

} // verus!
