//! The request to run one process, and the sandbox-retention policy.
use vstd::prelude::*;
use crate::text::{replace_all, replace_all_in, same_text};

verus! {

/// When a sandbox directory is kept on disk after its process has run.
#[derive(Clone, Copy, Debug, PartialEq, Eq, Hash, Structural)]
pub enum KeepSandboxes {
    Always,
    Never,
    OnFailure,
}

impl KeepSandboxes {
    /// The snake-case name of a policy.
    pub open spec fn spec_name(self) -> Seq<char> {
        match self {
            KeepSandboxes::Always => seq!['a', 'l', 'w', 'a', 'y', 's'],
            KeepSandboxes::Never => seq!['n', 'e', 'v', 'e', 'r'],
            KeepSandboxes::OnFailure => seq!['o', 'n', '_', 'f', 'a', 'i', 'l', 'u', 'r', 'e'],
        }
    }

    /// The snake-case name of this policy.
    pub fn name(&self) -> (r: &'static str)
        ensures
            r@ == self.spec_name(),
    {
        match self {
            KeepSandboxes::Always => {
                proof { reveal_strlit("always"); }
                "always"
            },
            KeepSandboxes::Never => {
                proof { reveal_strlit("never"); }
                "never"
            },
            KeepSandboxes::OnFailure => {
                proof { reveal_strlit("on_failure"); }
                "on_failure"
            },
        }
    }

    /// Reads a policy from its snake-case name.
    pub fn from_name(s: &str) -> (r: Option<KeepSandboxes>)
        ensures
            r matches Some(k) ==> k.spec_name() == s@,
            r is None ==> forall|k: KeepSandboxes| k.spec_name() != s@,
    {
        let all = [KeepSandboxes::Always, KeepSandboxes::Never, KeepSandboxes::OnFailure];
        let mut i: usize = 0;
        while i < 3
            invariant
                i <= 3,
                all@ == seq![KeepSandboxes::Always, KeepSandboxes::Never, KeepSandboxes::OnFailure],
                forall|j: int| 0 <= j < i ==> all@[j].spec_name() != s@,
            decreases 3 - i,
        {
            let k = all[i];
            if same_text(k.name(), s) {
                return Some(k);
            }
            i = i + 1;
        }
        assert forall|k: KeepSandboxes| k.spec_name() != s@ by {
            match k {
                KeepSandboxes::Always => assert(all@[0] == k),
                KeepSandboxes::Never => assert(all@[1] == k),
                KeepSandboxes::OnFailure => assert(all@[2] == k),
            }
        }
        None
    }
}

/// A symlink to be placed in a sandbox: `src` is the link's path inside the
/// sandbox, `dst` the absolute path it points at.
#[derive(Clone, Debug)]
pub struct WorkdirSymlink {
    pub src: String,
    pub dst: String,
}

/// A request to run one process.
///
/// `env` holds each variable once, in the order in which it is passed on;
/// paths are relative to the sandbox unless said otherwise.
#[derive(Clone, Debug)]
pub struct Process {
    pub argv: Vec<String>,
    pub env: Vec<(String, String)>,
    pub working_directory: Option<String>,
    pub output_files: Vec<String>,
    pub output_directories: Vec<String>,
    /// Absolute path of a JDK to expose in the sandbox as `.jdk`.
    pub jdk_home: Option<String>,
    /// Time the process may run, in milliseconds.
    pub timeout_ms: Option<u64>,
    pub description: String,
    pub keep_sandboxes: KeepSandboxes,
}

/// The placeholder that stands for the sandbox's absolute path.
pub open spec fn chroot_marker() -> Seq<char> {
    seq!['{', 'c', 'h', 'r', 'o', 'o', 't', '}']
}

/// Replaces every `{chroot}` placeholder in the environment's values and in
/// the arguments of `req` with `chroot_path`. Nothing else changes.
pub fn apply_chroot(chroot_path: &str, req: &mut Process)
    ensures
        final(req).env@.len() == old(req).env@.len(),
        forall|i: int| 0 <= i < old(req).env@.len() ==> {
            &&& (#[trigger] final(req).env@[i]).0@ == old(req).env@[i].0@
            &&& final(req).env@[i].1@ == replace_all(old(req).env@[i].1@, chroot_marker(), chroot_path@)
        },
        final(req).argv@.len() == old(req).argv@.len(),
        forall|i: int| 0 <= i < old(req).argv@.len() ==>
            (#[trigger] final(req).argv@[i])@ == replace_all(old(req).argv@[i]@, chroot_marker(), chroot_path@),
        final(req).working_directory == old(req).working_directory,
        final(req).output_files == old(req).output_files,
        final(req).output_directories == old(req).output_directories,
        final(req).jdk_home == old(req).jdk_home,
        final(req).timeout_ms == old(req).timeout_ms,
        final(req).description == old(req).description,
        final(req).keep_sandboxes == old(req).keep_sandboxes,
{
    let pat = "{chroot}";
    proof { reveal_strlit("{chroot}"); }
    assert(pat@ =~= chroot_marker());
    let mut env: Vec<(String, String)> = Vec::new();
    let mut i: usize = 0;
    while i < req.env.len()
        invariant
            i <= req.env@.len(),
            req == old(req),
            pat@ == chroot_marker(),
            env@.len() == i,
            forall|j: int| 0 <= j < i ==> {
                &&& (#[trigger] env@[j]).0@ == req.env@[j].0@
                &&& env@[j].1@ == replace_all(req.env@[j].1@, chroot_marker(), chroot_path@)
            },
        decreases req.env@.len() - i,
    {
        let key = req.env[i].0.clone();
        let value = replace_all_in(req.env[i].1.as_str(), pat, chroot_path);
        env.push((key, value));
        i = i + 1;
    }
    let mut argv: Vec<String> = Vec::new();
    let mut i: usize = 0;
    while i < req.argv.len()
        invariant
            i <= req.argv@.len(),
            req == old(req),
            pat@ == chroot_marker(),
            argv@.len() == i,
            forall|j: int| 0 <= j < i ==>
                (#[trigger] argv@[j])@ == replace_all(req.argv@[j]@, chroot_marker(), chroot_path@),
        decreases req.argv@.len() - i,
    {
        argv.push(replace_all_in(req.argv[i].as_str(), pat, chroot_path));
        i = i + 1;
    }
    req.env = env;
    req.argv = argv;
}

} // verus!
