use vstd::prelude::*;

verus! {

/// What a process's snapshot provider reports of it in one cycle.
///
/// `cpu_usage` is the raw usage in hundredths of a percent summed over all
/// cores; `cmd` holds the command line, executable first.
#[derive(Debug, Clone)]
pub struct ProcessSnapshot {
    pub pid: u32,
    pub name: String,
    pub cpu_usage: u32,
    pub memory_bytes: u64,
    pub cmd: Vec<String>,
    pub cwd: Option<String>,
    pub parent: Option<u32>,
}

/// One process as reported for a cycle.
///
/// `cpu_percent` is in hundredths of a percent, after normalisation by the
/// core count.
#[derive(Debug, Clone)]
pub struct ProcessInfo {
    pub name: String,
    pub pid: u32,
    pub cpu_percent: u32,
    pub memory_bytes: Option<u64>,
    pub extra_info: String,
}

/// What a `ProcessInfo` holds, with its strings as character sequences.
pub struct ProcessInfoView {
    pub name: Seq<char>,
    pub pid: u32,
    pub cpu_percent: u32,
    pub memory_bytes: Option<u64>,
    pub extra_info: Seq<char>,
}

impl View for ProcessInfo {
    type V = ProcessInfoView;

    open spec fn view(&self) -> ProcessInfoView {
        ProcessInfoView {
            name: self.name@,
            pid: self.pid,
            cpu_percent: self.cpu_percent,
            memory_bytes: self.memory_bytes,
            extra_info: self.extra_info@,
        }
    }
}

pub open spec fn info_views(s: Seq<ProcessInfo>) -> Seq<ProcessInfoView> {
    Seq::new(s.len(), |i: int| s[i]@)
}

impl ProcessInfo {
    pub fn new(name: String, pid: u32, cpu_percent: u32, extra_info: String) -> (r: Self)
        ensures
            r.name@ == name@,
            r.pid == pid,
            r.cpu_percent == cpu_percent,
            r.memory_bytes.is_none(),
            r.extra_info@ == extra_info@,
    {
        ProcessInfo { name, pid, cpu_percent, memory_bytes: None, extra_info }
    }
}

} // verus!
