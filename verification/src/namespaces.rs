//! The strict sandbox: when it can be used, its minimal root, the steps that
//! lead into it, and what is told of a command that ran in it.

use vstd::prelude::*;
use vstd::utf8::{encode_utf8, is_char_boundary};

use crate::text::{
    byte_len, dec, dec_int, dec_int_string, dec_string, join_path, lossy, path_join, str_eq, strs, text_of_bytes,
    trim, trim_string, utf8_len,
};

verus! {

/// The most bytes of a command's output.
pub const OUTPUT_LIMIT: usize = 65536;

/// Whether the sandbox can be used: by root always; else where user namespaces
/// are not restricted and the process has a user map. `restricted` is what the
/// kernel's switch holds, where there is one, and `uid_map` the process's user
/// map.
pub fn can_namespace(root: bool, restricted: Option<&str>, uid_map: Option<&str>) -> (r: bool)
    ensures
        r == (root || (!(restricted is Some && trim(restricted->0@) == "1"@) && uid_map is Some && trim(
            uid_map->0@,
        ).len() > 0)),
{
    if root {
        return true;
    }
    if let Some(v) = restricted {
        let t: String = trim_string(v);
        if str_eq(t.as_str(), "1") {
            return false;
        }
    }
    match uid_map {
        Some(m) => {
            let t: String = trim_string(m);
            !t.as_str().is_empty()
        },
        None => false,
    }
}

/// Where busybox may be, the first place first.
pub open spec fn busybox_places() -> Seq<Seq<char>> {
    seq!["/usr/bin/busybox"@, "/bin/busybox"@, "/usr/local/bin/busybox"@]
}

fn busybox_list() -> (r: Vec<String>)
    ensures
        r@.len() == 3,
        strs(r@) == busybox_places(),
{
    let mut v: Vec<String> = Vec::new();
    v.push("/usr/bin/busybox".to_string());
    v.push("/bin/busybox".to_string());
    v.push("/usr/local/bin/busybox".to_string());
    assert(strs(v@) =~= busybox_places());
    v
}

/// The first place that holds busybox.
pub open spec fn first_place(present: Seq<bool>) -> Option<Seq<char>> {
    if present.len() > 0 && present[0] {
        Some(busybox_places()[0])
    } else if present.len() > 1 && present[1] {
        Some(busybox_places()[1])
    } else if present.len() > 2 && present[2] {
        Some(busybox_places()[2])
    } else {
        None
    }
}

/// Picks the first place that holds busybox; `present` tells of each place.
pub fn busybox_among(present: &Vec<bool>) -> (r: Option<String>)
    ensures
        match r {
            Some(p) => first_place(present@) == Some(p@),
            None => first_place(present@) is None,
        },
{
    let places: Vec<String> = busybox_list();
    let mut i: usize = 0;
    while i < places.len() && i < present.len()
        invariant
            i <= 3,
            i <= present.len(),
            strs(places@) == busybox_places(),
            places@.len() == 3,
            forall|j: int| 0 <= j < i ==> !present@[j],
        decreases 3 - i,
    {
        if present[i] {
            assert(strs(places@)[i as int] == places@[i as int]@);
            return Some(places[i].clone());
        }
        i += 1;
    }
    None
}

/// Whether something exists at a path, by `std::path::Path::exists`. It depends
/// on the disk, so nothing is promised of it.
#[verifier::external_body]
fn path_exists(path: &str) -> bool
{
    std::path::Path::new(path).exists()
}

/// Finds busybox on this machine: one of the places, if any holds it.
pub fn find_busybox() -> (r: Option<String>)
    ensures
        r is Some ==> busybox_places().contains(r->0@),
{
    let places: Vec<String> = busybox_list();
    let mut present: Vec<bool> = Vec::new();
    let mut i: usize = 0;
    while i < places.len()
        invariant
            i <= places.len(),
            present@.len() == i,
        decreases places.len() - i,
    {
        let b: bool = path_exists(places[i].as_str());
        present.push(b);
        i += 1;
    }
    let r: Option<String> = busybox_among(&present);
    proof {
        let s = busybox_places();
        assert(s.contains(s[0]) && s.contains(s[1]) && s.contains(s[2]));
    }
    r
}

// ---------- the minimal root ----------

/// What the minimal root is made of.
#[derive(Debug)]
pub struct MinRoot {
    /// The root's own path.
    pub root: String,
    /// The directories that must be there.
    pub bin: String,
    /// The directories that are made where possible.
    pub dirs: Vec<String>,
    /// Where busybox is copied to.
    pub busybox: String,
    /// The links to busybox.
    pub links: Vec<String>,
    /// Device files: the path and the device's number.
    pub devices: Vec<(String, u64)>,
}

/// The commands that are links to busybox.
pub open spec fn applets() -> Seq<Seq<char>> {
    seq![
        "sh"@,
        "bash"@,
        "ls"@,
        "cat"@,
        "ps"@,
        "top"@,
        "mount"@,
        "umount"@,
        "echo"@,
        "sleep"@,
        "env"@,
        "grep"@,
        "find"@,
        "head"@,
        "tail"@,
        "wc"@,
        "mkdir"@,
        "rm"@,
        "cp"@,
        "mv"@,
        "touch"@,
        "true"@,
        "false"@,
    ]
}

fn applet_list() -> (r: Vec<String>)
    ensures
        strs(r@) == applets(),
{
    let mut v: Vec<String> = Vec::new();
    v.push("sh".to_string());
    v.push("bash".to_string());
    v.push("ls".to_string());
    v.push("cat".to_string());
    v.push("ps".to_string());
    v.push("top".to_string());
    v.push("mount".to_string());
    v.push("umount".to_string());
    v.push("echo".to_string());
    v.push("sleep".to_string());
    v.push("env".to_string());
    v.push("grep".to_string());
    v.push("find".to_string());
    v.push("head".to_string());
    v.push("tail".to_string());
    v.push("wc".to_string());
    v.push("mkdir".to_string());
    v.push("rm".to_string());
    v.push("cp".to_string());
    v.push("mv".to_string());
    v.push("touch".to_string());
    v.push("true".to_string());
    v.push("false".to_string());
    assert(strs(v@) =~= applets());
    v
}

/// The paths of names in a directory.
pub open spec fn under(dir: Seq<char>, names: Seq<Seq<char>>) -> Seq<Seq<char>> {
    Seq::new(names.len(), |i: int| path_join(dir, names[i]))
}

fn paths_under(dir: &str, names: &Vec<String>) -> (r: Vec<String>)
    ensures
        strs(r@) == under(dir@, strs(names@)),
{
    let mut out: Vec<String> = Vec::new();
    let mut i: usize = 0;
    while i < names.len()
        invariant
            i <= names.len(),
            out@.len() == i,
            forall|k: int| 0 <= k < i ==> (#[trigger] out@[k])@ == path_join(dir@, names@[k]@),
        decreases names.len() - i,
    {
        out.push(join_path(dir, names[i].as_str()));
        i += 1;
    }
    assert(strs(out@) =~= under(dir@, strs(names@)));
    out
}

/// The number of a device, by its class and its place in the class.
pub open spec fn device_number(major: int, minor: int) -> int {
    major * 256 + minor
}

/// The error where busybox is missing.
pub const NO_BUSYBOX: &'static str = "未找到 busybox（strict 档需要）。Ubuntu: apt install busybox-static";

/// Lays out the minimal root in a working directory, given where busybox is.
pub fn prepare_min_root(work_dir: &str, busybox: Option<&str>) -> (r: Result<MinRoot, String>)
    ensures
        match busybox {
            None => r is Err && r->Err_0@ == NO_BUSYBOX@,
            Some(_) => {
                let root = path_join(work_dir@, ".sandbox-root"@);
                let m = r->Ok_0;
                &&& r is Ok
                &&& m.root@ == root
                &&& m.bin@ == path_join(root, "bin"@)
                &&& strs(m.dirs@) == under(root, seq!["tmp"@, "proc"@, "work"@, "dev"@])
                &&& m.busybox@ == path_join(root, "bin/busybox"@)
                &&& strs(m.links@) == under(path_join(root, "bin"@), applets())
                &&& m.devices@.len() == 4
                &&& m.devices@[0].0@ == path_join(path_join(root, "dev"@), "null"@)
                &&& m.devices@[0].1 == device_number(1, 3)
                &&& m.devices@[1].0@ == path_join(path_join(root, "dev"@), "zero"@)
                &&& m.devices@[1].1 == device_number(1, 5)
                &&& m.devices@[2].0@ == path_join(path_join(root, "dev"@), "random"@)
                &&& m.devices@[2].1 == device_number(1, 8)
                &&& m.devices@[3].0@ == path_join(path_join(root, "dev"@), "urandom"@)
                &&& m.devices@[3].1 == device_number(1, 9)
            },
        },
{
    if busybox.is_none() {
        return Err(NO_BUSYBOX.to_string());
    }
    let root: String = join_path(work_dir, ".sandbox-root");
    let bin: String = join_path(root.as_str(), "bin");
    let mut names: Vec<String> = Vec::new();
    names.push("tmp".to_string());
    names.push("proc".to_string());
    names.push("work".to_string());
    names.push("dev".to_string());
    assert(strs(names@) =~= seq!["tmp"@, "proc"@, "work"@, "dev"@]);
    let dirs: Vec<String> = paths_under(root.as_str(), &names);
    let applets: Vec<String> = applet_list();
    let links: Vec<String> = paths_under(bin.as_str(), &applets);
    let target: String = join_path(root.as_str(), "bin/busybox");
    let dev: String = join_path(root.as_str(), "dev");
    let mut devices: Vec<(String, u64)> = Vec::new();
    devices.push((join_path(dev.as_str(), "null"), 259));
    devices.push((join_path(dev.as_str(), "zero"), 261));
    devices.push((join_path(dev.as_str(), "random"), 264));
    devices.push((join_path(dev.as_str(), "urandom"), 265));
    Ok(MinRoot { root, bin, dirs, busybox: target, links, devices })
}

// ---------- the way in ----------

/// The line that maps root in the sandbox to a user or group outside.
pub fn id_map(id: u32) -> (r: String)
    ensures
        r@ == "0 "@ + dec(id as nat) + " 1\n"@,
{
    let mut s: String = "0 ".to_string();
    let d: String = dec_string(id as u64);
    s.append(d.as_str());
    s.append(" 1\n");
    s
}

/// A step on the way into the sandbox. From `MountProc` on they are taken by
/// the process that is born in the new process space.
#[derive(Debug, Clone, Copy, PartialEq, Eq, Structural)]
pub enum SandboxStep {
    NewUser,
    DenyGroups,
    UserMap,
    GroupMap,
    NewSpaces,
    PrivateMounts,
    BindWork,
    Fork,
    MountProc,
    ChangeRoot,
    ChangeDir,
    Execute,
}

/// What follows a step.
#[derive(Debug, Clone, Copy, PartialEq, Eq, Structural)]
pub enum SandboxAction {
    Next(SandboxStep),
    /// The command cannot be started; the error is reported.
    Fail,
    /// The process ends with a code.
    Exit(i32),
}

/// The first step: a user space is needed without root.
pub fn first_step(root: bool) -> (r: SandboxStep)
    ensures
        r == (if root {
            SandboxStep::NewSpaces
        } else {
            SandboxStep::NewUser
        }),
{
    if root {
        SandboxStep::NewSpaces
    } else {
        SandboxStep::NewUser
    }
}

/// The step after a step that succeeded.
pub open spec fn following(s: SandboxStep) -> SandboxStep {
    match s {
        SandboxStep::NewUser => SandboxStep::DenyGroups,
        SandboxStep::DenyGroups => SandboxStep::UserMap,
        SandboxStep::UserMap => SandboxStep::GroupMap,
        SandboxStep::GroupMap => SandboxStep::NewSpaces,
        SandboxStep::NewSpaces => SandboxStep::PrivateMounts,
        SandboxStep::PrivateMounts => SandboxStep::BindWork,
        SandboxStep::BindWork => SandboxStep::Fork,
        SandboxStep::Fork => SandboxStep::MountProc,
        SandboxStep::MountProc => SandboxStep::ChangeRoot,
        SandboxStep::ChangeRoot => SandboxStep::ChangeDir,
        SandboxStep::ChangeDir => SandboxStep::Execute,
        SandboxStep::Execute => SandboxStep::Execute,
    }
}

/// The code that tells why a command could not be executed.
pub open spec fn exec_code(errno: Option<i32>) -> int {
    let e = match errno {
        Some(x) => x as int,
        None => 90,
    };
    160 + (if e < 90 {
        e
    } else {
        90
    })
}

pub fn exec_failure_code(errno: Option<i32>) -> (r: i32)
    ensures
        r == exec_code(errno),
{
    let e: i32 = match errno {
        Some(x) => x,
        None => 90,
    };
    if e < 90 {
        160 + e
    } else {
        250
    }
}

/// What follows a step that succeeded or failed. Forbidding group changes may
/// fail. Before the fork a failure is reported; after it the process can only
/// end with a code. `Execute` does not come back where it succeeds, so a return
/// from it is a failure.
pub open spec fn step_action(s: SandboxStep, ok: bool, errno: Option<i32>) -> SandboxAction {
    if s is Execute {
        SandboxAction::Exit(exec_code(errno) as i32)
    } else if ok || s is DenyGroups {
        SandboxAction::Next(following(s))
    } else if s is MountProc {
        SandboxAction::Exit(125)
    } else if s is ChangeRoot || s is ChangeDir {
        SandboxAction::Exit(126)
    } else {
        SandboxAction::Fail
    }
}

pub fn after_step(s: SandboxStep, ok: bool, errno: Option<i32>) -> (r: SandboxAction)
    ensures
        r == step_action(s, ok, errno),
{
    match s {
        SandboxStep::NewUser => if ok {
            SandboxAction::Next(SandboxStep::DenyGroups)
        } else {
            SandboxAction::Fail
        },
        SandboxStep::DenyGroups => SandboxAction::Next(SandboxStep::UserMap),
        SandboxStep::UserMap => if ok {
            SandboxAction::Next(SandboxStep::GroupMap)
        } else {
            SandboxAction::Fail
        },
        SandboxStep::GroupMap => if ok {
            SandboxAction::Next(SandboxStep::NewSpaces)
        } else {
            SandboxAction::Fail
        },
        SandboxStep::NewSpaces => if ok {
            SandboxAction::Next(SandboxStep::PrivateMounts)
        } else {
            SandboxAction::Fail
        },
        SandboxStep::PrivateMounts => if ok {
            SandboxAction::Next(SandboxStep::BindWork)
        } else {
            SandboxAction::Fail
        },
        SandboxStep::BindWork => if ok {
            SandboxAction::Next(SandboxStep::Fork)
        } else {
            SandboxAction::Fail
        },
        SandboxStep::Fork => if ok {
            SandboxAction::Next(SandboxStep::MountProc)
        } else {
            SandboxAction::Fail
        },
        SandboxStep::MountProc => if ok {
            SandboxAction::Next(SandboxStep::ChangeRoot)
        } else {
            SandboxAction::Exit(125)
        },
        SandboxStep::ChangeRoot => if ok {
            SandboxAction::Next(SandboxStep::ChangeDir)
        } else {
            SandboxAction::Exit(126)
        },
        SandboxStep::ChangeDir => if ok {
            SandboxAction::Next(SandboxStep::Execute)
        } else {
            SandboxAction::Exit(126)
        },
        SandboxStep::Execute => SandboxAction::Exit(exec_failure_code(errno)),
    }
}

/// The process spaces and the private root come before the command: whatever
/// fails on the way, a command is executed only right after the root and the
/// directory were changed in the new process space.
pub proof fn law_command_runs_inside(s: SandboxStep, ok: bool, errno: Option<i32>)
    ensures
        step_action(s, ok, errno) == SandboxAction::Next(SandboxStep::Execute) ==> s is ChangeDir && ok,
        step_action(s, ok, errno) == SandboxAction::Next(SandboxStep::ChangeDir) ==> s is ChangeRoot && ok,
        step_action(s, ok, errno) == SandboxAction::Next(SandboxStep::ChangeRoot) ==> s is MountProc && ok,
        step_action(s, ok, errno) == SandboxAction::Next(SandboxStep::MountProc) ==> s is Fork && ok,
        step_action(s, ok, errno) == SandboxAction::Next(SandboxStep::Fork) ==> s is BindWork && ok,
        step_action(s, ok, errno) == SandboxAction::Next(SandboxStep::BindWork) ==> s is PrivateMounts && ok,
        step_action(s, ok, errno) == SandboxAction::Next(SandboxStep::PrivateMounts) ==> s is NewSpaces && ok,
{
}

/// How a child process ended.
#[derive(Debug, Clone, Copy, PartialEq, Eq, Structural)]
pub enum ChildEnd {
    Exited(i32),
    Signaled(u8),
    Lost,
}

/// The code with which the waiting process passes on how its child ended.
pub fn passed_code(end: ChildEnd) -> (r: i32)
    ensures
        r == (match end {
            ChildEnd::Exited(c) => c as int,
            ChildEnd::Signaled(s) => 128 + s,
            ChildEnd::Lost => 125,
        }),
{
    match end {
        ChildEnd::Exited(c) => c,
        ChildEnd::Signaled(s) => 128 + s as i32,
        ChildEnd::Lost => 125,
    }
}

// ---------- output ----------

/// The output of a command as it comes in.
#[derive(Debug)]
pub struct SandboxOutput {
    out: String,
}

/// The text that is told where the output was cut.
pub const CUT_MARK: &'static str = "\n...(输出截断)";

/// Whether a text can be cut at the limit: no character lies across it.
pub open spec fn can_be_cut(s: Seq<char>) -> bool {
    utf8_len(s) <= OUTPUT_LIMIT || is_char_boundary(encode_utf8(s), OUTPUT_LIMIT as int)
}

/// What is told of a command's output.
pub open spec fn told(s: Seq<char>, cut: Seq<char>, code: int) -> Seq<char> {
    (if utf8_len(s) <= OUTPUT_LIMIT {
        s
    } else {
        cut + CUT_MARK@
    }) + ("\nexit_code="@ + dec_int(code) + "\n"@)
}

impl View for SandboxOutput {
    type V = Seq<char>;

    closed spec fn view(&self) -> Seq<char> {
        self.out@
    }
}

impl SandboxOutput {
    pub fn new() -> (r: SandboxOutput)
        ensures
            r@ == Seq::<char>::empty(),
    {
        SandboxOutput { out: String::new() }
    }

    /// Whether more is to be read.
    pub fn wants_more(&self) -> (r: bool)
        ensures
            r == (utf8_len(self@) < OUTPUT_LIMIT),
    {
        byte_len(self.out.as_str()) < OUTPUT_LIMIT
    }

    /// Takes a piece of output.
    pub fn push(&mut self, bytes: &[u8])
        ensures
            final(self)@ == old(self)@ + lossy(bytes@),
    {
        let t: String = text_of_bytes(bytes);
        self.out.append(t.as_str());
    }

    /// Whether the output can be cut where it is too long.
    pub fn can_finish(&self) -> (r: bool)
        ensures
            r == can_be_cut(self@),
    {
        byte_len(self.out.as_str()) <= OUTPUT_LIMIT || self.out.as_str().is_char_boundary(OUTPUT_LIMIT)
    }

    /// What is told of the command: its output, cut at the limit, and its exit
    /// code.
    pub fn finish(&self, code: i32) -> (r: String)
        requires
            can_be_cut(self@),
        ensures
            exists|cut: Seq<char>|
                r@ == #[trigger] told(self@, cut, code as int) && (utf8_len(self@) > OUTPUT_LIMIT ==> encode_utf8(
                    cut,
                ) == encode_utf8(self@).take(OUTPUT_LIMIT as int)),
    {
        let ghost mut cut: Seq<char> = Seq::empty();
        let mut s: String = if byte_len(self.out.as_str()) <= OUTPUT_LIMIT {
            self.out.clone()
        } else {
            let (a, _b) = self.out.as_str().split_at(OUTPUT_LIMIT);
            proof {
                cut = a@;
            }
            let mut t: String = a.to_string();
            t.append(CUT_MARK);
            t
        };
        let ghost first = s@;
        let mut line: String = "\nexit_code=".to_string();
        let d: String = dec_int_string(code as i64);
        line.append(d.as_str());
        line.append("\n");
        s.append(line.as_str());
        assert(s@ == told(self@, cut, code as int));
        s
    }
}

} // verus!
