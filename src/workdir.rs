//! The shape of a sandbox's working directory: where the executable lies,
//! which symlinks and directories are added to the input tree, and how a
//! process is spawned.
use vstd::prelude::*;
use crate::error::CapturedWorkdirError;
use crate::process::{Process, WorkdirSymlink};
use crate::text::{contains_text, occurs_at, prefix_text, push_char, same_text, suffix_text};

verus! {

/// Whether `p` is an absolute path.
pub open spec fn is_absolute(p: Seq<char>) -> bool {
    p.len() > 0 && p[0] == '/'
}

/// `b` taken relative to `a`; an absolute `b` stands for itself.
pub open spec fn join_path(a: Seq<char>, b: Seq<char>) -> Seq<char> {
    if is_absolute(b) {
        b
    } else if a.len() == 0 || a.last() == '/' {
        a + b
    } else {
        a + seq!['/'] + b
    }
}

/// Position of the last `/` in `p`, or -1 where there is none.
pub open spec fn last_slash(p: Seq<char>) -> int
    decreases p.len(),
{
    if p.len() == 0 {
        -1
    } else if p.last() == '/' {
        p.len() - 1
    } else {
        last_slash(p.drop_last())
    }
}

/// The parent of a normalized relative path: what comes before its last
/// `/`, or the empty path where it has a single component; none for the
/// empty path.
pub open spec fn parent_dir(p: Seq<char>) -> Option<Seq<char>> {
    if p.len() == 0 {
        None
    } else if last_slash(p) < 0 {
        Some(Seq::empty())
    } else {
        Some(p.take(last_slash(p)))
    }
}

/// The rest of `p` below the directory `base`, where `p` lies in it.
pub open spec fn strip_base(p: Seq<char>, base: Seq<char>) -> Option<Seq<char>> {
    if base.len() <= p.len() && p.take(base.len() as int) == base {
        if p.len() == base.len() {
            Some(Seq::empty())
        } else if p[base.len() as int] == '/' {
            Some(p.skip(base.len() as int + 1))
        } else {
            None
        }
    } else {
        None
    }
}

proof fn lemma_last_slash_bounds(p: Seq<char>)
    ensures
        -1 <= last_slash(p) < p.len(),
        last_slash(p) >= 0 ==> p[last_slash(p)] == '/',
        forall|j: int| last_slash(p) < j < p.len() ==> #[trigger] p[j] != '/',
    decreases p.len(),
{
    if p.len() > 0 && p.last() != '/' {
        lemma_last_slash_bounds(p.drop_last());
        assert forall|j: int| last_slash(p) < j < p.len() implies p[j] != '/' by {
            if j < p.len() - 1 {
                assert(p.drop_last()[j] == p[j]);
            }
        }
    }
}

/// Joins two paths as `join_path` does.
pub fn join_text(a: &str, b: &str) -> (r: String)
    ensures
        r@ == join_path(a@, b@),
{
    if b.unicode_len() > 0 && b.get_char(0) == '/' {
        return String::from_str(b);
    }
    let n = a.unicode_len();
    let mut r = String::from_str(a);
    if n > 0 && a.get_char(n - 1) != '/' {
        push_char(&mut r, '/');
    }
    r.append(b);
    r
}

/// Position of the last `/` in `p`, or none.
fn find_last_slash(p: &str) -> (r: Option<usize>)
    ensures
        r matches Some(i) ==> i == last_slash(p@),
        r is None ==> last_slash(p@) == -1,
{
    proof { lemma_last_slash_bounds(p@); }
    let mut i: usize = p.unicode_len();
    while i > 0
        invariant
            i <= p@.len(),
            forall|j: int| i <= j < p@.len() ==> p@[j] != '/',
        decreases i,
    {
        proof { lemma_last_slash_bounds(p@); }
        let c = p.get_char(i - 1);
        if c == '/' {
            assert(p@[i - 1] == '/');
            assert(last_slash(p@) >= i - 1);
            return Some(i - 1);
        }
        i = i - 1;
    }
    None
}

/// The parent of a normalized relative path, as `parent_dir` says.
pub fn parent_text(p: &str) -> (r: Option<String>)
    ensures
        r matches Some(d) ==> parent_dir(p@) == Some(d@),
        r is None ==> parent_dir(p@) is None,
{
    proof { lemma_last_slash_bounds(p@); }
    if p.unicode_len() == 0 {
        return None;
    }
    match find_last_slash(p) {
        Some(i) => Some(prefix_text(p, i)),
        None => Some(String::new()),
    }
}

/// Path of the executable inside the sandbox at `workdir`, where `argv0`
/// is relative: it is found below the working directory, if any.
pub open spec fn executable_in_sandbox(
    workdir: Seq<char>,
    working_directory: Option<Seq<char>>,
    argv0: Seq<char>,
) -> Option<Seq<char>> {
    if is_absolute(argv0) {
        None
    } else {
        Some(
            join_path(
                workdir,
                match working_directory {
                    Some(wd) => join_path(wd, argv0),
                    None => argv0,
                },
            ),
        )
    }
}

pub open spec fn opt_view(o: Option<String>) -> Option<Seq<char>> {
    match o {
        Some(s) => Some(s@),
        None => None,
    }
}

/// Where the executable of `req` lies inside the sandbox at `workdir`, if it
/// is given as a relative path. A request without arguments is refused.
pub fn executable_path(workdir: &str, req: &Process) -> (r: Result<
    Option<String>,
    CapturedWorkdirError,
>)
    ensures
        req.argv@.len() == 0 <==> r is Err,
        r matches Err(e) ==> e is Fatal,
        r matches Ok(p) ==> opt_view(p) == executable_in_sandbox(
            workdir@,
            opt_view(req.working_directory),
            req.argv@[0]@,
        ),
{
    if req.argv.len() == 0 {
        proof { reveal_strlit("Cannot run a process with an empty argv"); }
        return Err(
            CapturedWorkdirError::Fatal(String::from_str("Cannot run a process with an empty argv")),
        );
    }
    let argv0 = req.argv[0].as_str();
    if argv0.unicode_len() > 0 && argv0.get_char(0) == '/' {
        return Ok(None);
    }
    let inner = match &req.working_directory {
        Some(wd) => join_text(wd.as_str(), argv0),
        None => String::from_str(argv0),
    };
    Ok(Some(join_text(workdir, inner.as_str())))
}

/// Whether the process must be spawned exclusively: its executable was
/// materialized inside the sandbox (`executable` is its path there and
/// `exists` says whether a file is found at it).
pub fn exclusive_spawn(executable: &Option<String>, exists: bool) -> (r: bool)
    ensures
        r == (executable is Some && exists),
{
    executable.is_some() && exists
}

/// The side of the process-wide spawn lock that a spawn takes.
#[derive(Clone, Copy, Debug, PartialEq, Eq, Structural)]
pub enum SpawnLock {
    /// Taken together with other ordinary spawns.
    Shared,
    /// Taken alone, while no other spawn and no write of an executable runs.
    Exclusive,
}

/// The side of the spawn lock that a spawn takes.
pub open spec fn spec_spawn_lock(exclusive: bool) -> SpawnLock {
    if exclusive {
        SpawnLock::Exclusive
    } else {
        SpawnLock::Shared
    }
}

/// The side of the spawn lock that a spawn takes.
pub fn spawn_lock_for(exclusive: bool) -> (r: SpawnLock)
    ensures
        r == spec_spawn_lock(exclusive),
{
    if exclusive {
        SpawnLock::Exclusive
    } else {
        SpawnLock::Shared
    }
}

/// A process whose relative `argv[0]` names a file of the materialized tree
/// (`found`) is spawned under the exclusive side of the spawn lock.
pub proof fn lemma_sandboxed_executable_spawns_exclusively(
    workdir: Seq<char>,
    working_directory: Option<Seq<char>>,
    argv0: Seq<char>,
    found: bool,
)
    requires
        !is_absolute(argv0),
        found,
    ensures
        spec_spawn_lock(executable_in_sandbox(workdir, working_directory, argv0) is Some && found)
            == SpawnLock::Exclusive,
{
}

/// Every declared output path of a request, files first.
pub open spec fn output_paths(req: Process) -> Seq<String> {
    req.output_files@ + req.output_directories@
}

/// The parent of `p` where it is not empty.
pub open spec fn nonempty_parent(p: Seq<char>) -> Option<Seq<char>> {
    match parent_dir(p) {
        Some(d) => if d.len() > 0 { Some(d) } else { None },
        None => None,
    }
}

/// `dirs` holds, each once, exactly the non-empty parents of `paths`.
pub open spec fn is_parent_dirs_of(dirs: Seq<String>, paths: Seq<String>) -> bool {
    &&& forall|k: int| 0 <= k < dirs.len() ==> (#[trigger] dirs[k])@.len() > 0
    &&& forall|k: int| #![trigger dirs[k]] 0 <= k < dirs.len() ==> exists|j: int|
        0 <= j < paths.len() && parent_dir((#[trigger] paths[j])@) == Some(dirs[k]@)
    &&& forall|j: int| 0 <= j < paths.len() && nonempty_parent((#[trigger] paths[j])@) is Some
        ==> exists|k: int| 0 <= k < dirs.len() && Some((#[trigger] dirs[k])@) == nonempty_parent(paths[j]@)
    &&& forall|k1: int, k2: int| 0 <= k1 < k2 < dirs.len() ==> (#[trigger] dirs[k1])@ != (#[trigger] dirs[k2])@
}

/// The parents of the given paths that a sandbox creates before its process
/// runs: each non-empty parent, once.
pub fn parent_dirs(paths: &Vec<String>) -> (r: Vec<String>)
    ensures
        is_parent_dirs_of(r@, paths@),
{
    let mut acc: Vec<String> = Vec::new();
    let mut i: usize = 0;
    while i < paths.len()
        invariant
            i <= paths@.len(),
            is_parent_dirs_of(acc@, paths@.take(i as int)),
        decreases paths@.len() - i,
    {
        let ghost pre = paths@.take(i as int);
        let ghost post = paths@.take(i + 1);
        assert(post =~= pre.push(paths@[i as int]));
        let ghost acc0 = acc@;
        match parent_text(paths[i].as_str()) {
            Some(d) => {
                if d.unicode_len() > 0 && !contains_text(&acc, d.as_str()) {
                    acc.push(d);
                    assert(acc@[acc0.len() as int]@ == d@);
                    assert forall|k: int| 0 <= k < acc@.len() implies (#[trigger] acc@[k])@.len() > 0 by {
                        if k < acc0.len() {
                            assert(acc@[k] == acc0[k]);
                        }
                    }
                    assert forall|k1: int, k2: int| 0 <= k1 < k2 < acc@.len() implies
                        (#[trigger] acc@[k1])@ != (#[trigger] acc@[k2])@ by {
                        assert(acc@[k1] == acc0[k1]);
                        if k2 < acc0.len() {
                            assert(acc@[k2] == acc0[k2]);
                        }
                    }
                    assert forall|k: int| #![trigger acc@[k]] 0 <= k < acc@.len() implies exists|j: int|
                        0 <= j < post.len() && parent_dir((#[trigger] post[j])@) == Some(acc@[k]@) by {
                        if k < acc0.len() {
                            let j = choose|j: int| 0 <= j < pre.len() && parent_dir((#[trigger] pre[j])@) == Some(acc0[k]@);
                            assert(post[j] == pre[j]);
                        } else {
                            assert(post[i as int] == paths@[i as int]);
                        }
                    }
                    assert forall|j: int| 0 <= j < post.len() && nonempty_parent((#[trigger] post[j])@) is Some implies
                        exists|k: int| 0 <= k < acc@.len() && Some((#[trigger] acc@[k])@) == nonempty_parent(post[j]@) by {
                        if j < pre.len() {
                            assert(post[j] == pre[j]);
                            let k = choose|k: int| 0 <= k < acc0.len() && Some((#[trigger] acc0[k])@) == nonempty_parent(pre[j]@);
                            assert(acc@[k] == acc0[k]);
                        } else {
                            assert(acc@[acc0.len() as int]@ == d@);
                        }
                    }
                } else {
                    assert forall|k: int| #![trigger acc@[k]] 0 <= k < acc@.len() implies exists|j: int|
                        0 <= j < post.len() && parent_dir((#[trigger] post[j])@) == Some(acc@[k]@) by {
                        let j = choose|j: int| 0 <= j < pre.len() && parent_dir((#[trigger] pre[j])@) == Some(acc0[k]@);
                        assert(post[j] == pre[j]);
                    }
                    assert forall|j: int| 0 <= j < post.len() && nonempty_parent((#[trigger] post[j])@) is Some implies
                        exists|k: int| 0 <= k < acc@.len() && Some((#[trigger] acc@[k])@) == nonempty_parent(post[j]@) by {
                        if j < pre.len() {
                            assert(post[j] == pre[j]);
                        }
                    }
                }
            },
            None => {
                assert forall|k: int| #![trigger acc@[k]] 0 <= k < acc@.len() implies exists|j: int|
                    0 <= j < post.len() && parent_dir((#[trigger] post[j])@) == Some(acc@[k]@) by {
                    let j = choose|j: int| 0 <= j < pre.len() && parent_dir((#[trigger] pre[j])@) == Some(acc0[k]@);
                    assert(post[j] == pre[j]);
                }
                assert forall|j: int| 0 <= j < post.len() && nonempty_parent((#[trigger] post[j])@) is Some implies
                    exists|k: int| 0 <= k < acc@.len() && Some((#[trigger] acc@[k])@) == nonempty_parent(post[j]@) by {
                    if j < pre.len() {
                        assert(post[j] == pre[j]);
                    }
                }
            },
        }
        assert(is_parent_dirs_of(acc@, post));
        i = i + 1;
    }
    assert(paths@.take(i as int) =~= paths@);
    acc
}

/// The rest of `p` below `base`, as `strip_base` says.
pub fn strip_base_text(p: &str, base: &str) -> (r: Option<String>)
    ensures
        opt_view(r) == strip_base(p@, base@),
{
    let n = p.unicode_len();
    let m = base.unicode_len();
    if m > n {
        return None;
    }
    if m > 0 && !occurs_at(p, base, 0) {
        assert(p@.subrange(0, m as int) == p@.take(m as int));
        return None;
    }
    assert(p@.take(m as int) =~= base@);
    if m == n {
        return Some(String::new());
    }
    if p.get_char(m) == '/' {
        Some(suffix_text(p, m + 1))
    } else {
        None
    }
}

/// The views of a list of symlinks, as pairs of path and target.
pub open spec fn link_views(links: Seq<WorkdirSymlink>) -> Seq<(Seq<char>, Seq<char>)> {
    links.map_values(|l: WorkdirSymlink| (l.src@, l.dst@))
}

/// Moves the targets of `links`, which lie below `base`, to the same place
/// below `prefix`; this is how a materializer that sees another filesystem
/// root finds them. A target outside `base` is refused.
pub fn rebase_symlinks(links: &Vec<WorkdirSymlink>, base: &str, prefix: &str) -> (r: Result<
    Vec<WorkdirSymlink>,
    CapturedWorkdirError,
>)
    ensures
        r is Ok <==> forall|i: int| 0 <= i < links@.len() ==> strip_base((#[trigger] links@[i]).dst@, base@) is Some,
        r matches Err(e) ==> e is Fatal,
        r matches Ok(v) ==> v@.len() == links@.len() && forall|i: int| 0 <= i < links@.len() ==> {
            &&& (#[trigger] v@[i]).src@ == links@[i].src@
            &&& v@[i].dst@ == join_path(prefix@, strip_base(links@[i].dst@, base@)->0)
        },
{
    let mut out: Vec<WorkdirSymlink> = Vec::new();
    let mut i: usize = 0;
    while i < links.len()
        invariant
            i <= links@.len(),
            out@.len() == i,
            forall|j: int| 0 <= j < i ==> strip_base((#[trigger] links@[j]).dst@, base@) is Some,
            forall|j: int| 0 <= j < i ==> {
                &&& (#[trigger] out@[j]).src@ == links@[j].src@
                &&& out@[j].dst@ == join_path(prefix@, strip_base(links@[j].dst@, base@)->0)
            },
        decreases links@.len() - i,
    {
        match strip_base_text(links[i].dst.as_str(), base) {
            Some(rest) => {
                let dst = join_text(prefix, rest.as_str());
                out.push(WorkdirSymlink { src: links[i].src.clone(), dst });
            },
            None => {
                proof { reveal_strlit("A symlink target lies outside the directory it was resolved in"); }
                return Err(CapturedWorkdirError::Fatal(
                    String::from_str("A symlink target lies outside the directory it was resolved in"),
                ));
            },
        }
        i = i + 1;
    }
    Ok(out)
}

/// The symlinks that a sandbox adds: those given, then `.jdk` where the
/// request names a JDK.
pub open spec fn link_entries(req: Process, symlinks: Seq<WorkdirSymlink>) -> Seq<(Seq<char>, Seq<char>)> {
    match req.jdk_home {
        Some(j) => link_views(symlinks).push((".jdk"@, j@)),
        None => link_views(symlinks),
    }
}

/// Whether link `i` of `links` shares its path with a later link, with a
/// directory made for an output, or with an entry of the input tree.
pub open spec fn clashes_at(
    links: Seq<(Seq<char>, Seq<char>)>,
    i: int,
    outputs: Seq<String>,
    inputs: Seq<String>,
) -> bool {
    ||| exists|j: int| i < j < links.len() && (#[trigger] links[j]).0 == links[i].0
    ||| exists|j: int| 0 <= j < outputs.len() && nonempty_parent((#[trigger] outputs[j])@) == Some(links[i].0)
    ||| exists|j: int| 0 <= j < inputs.len() && (#[trigger] inputs[j])@ == links[i].0
}

/// Whether some added symlink clashes with another entry.
pub open spec fn any_clash(
    links: Seq<(Seq<char>, Seq<char>)>,
    outputs: Seq<String>,
    inputs: Seq<String>,
) -> bool {
    exists|i: int| 0 <= i < links.len() && #[trigger] clashes_at(links, i, outputs, inputs)
}

/// The entries that a sandbox adds to its input tree.
pub struct WorkdirAdditions {
    /// Symlinks to absolute targets.
    pub links: Vec<WorkdirSymlink>,
    /// Empty directories, the parents of the declared outputs.
    pub dirs: Vec<String>,
}

fn clone_links(links: &Vec<WorkdirSymlink>) -> (r: Vec<WorkdirSymlink>)
    ensures
        link_views(r@) == link_views(links@),
{
    let mut out: Vec<WorkdirSymlink> = Vec::new();
    let mut i: usize = 0;
    while i < links.len()
        invariant
            i <= links@.len(),
            out@.len() == i,
            forall|k: int| 0 <= k < i ==> (#[trigger] out@[k]).src@ == links@[k].src@ && out@[k].dst@ == links@[k].dst@,
        decreases links@.len() - i,
    {
        out.push(WorkdirSymlink { src: links[i].src.clone(), dst: links[i].dst.clone() });
        i = i + 1;
    }
    assert(link_views(out@) =~= link_views(links@));
    out
}

fn clashes_at_exec(links: &Vec<WorkdirSymlink>, i: usize, outputs: &Vec<String>, dirs: &Vec<String>, inputs: &Vec<String>) -> (r: bool)
    requires
        i < links@.len(),
        is_parent_dirs_of(dirs@, outputs@),
    ensures
        r == clashes_at(link_views(links@), i as int, outputs@, inputs@),
{
    let ghost lv = link_views(links@);
    let src = links[i].src.as_str();
    let n = links.len();
    let mut j: usize = i + 1;
    while j < links.len()
        invariant
            i < j <= links@.len(),
            lv == link_views(links@),
            src@ == lv[i as int].0,
            forall|k: int| i < k < j ==> (#[trigger] lv[k]).0 != lv[i as int].0,
        decreases links@.len() - j,
    {
        if same_text(links[j].src.as_str(), src) {
            assert(lv[j as int].0 == lv[i as int].0);
            return true;
        }
        j = j + 1;
    }
    if contains_text(dirs, src) {
        let ghost k = choose|k: int| 0 <= k < dirs@.len() && (#[trigger] dirs@[k])@ == src@;
        let ghost w = choose|w: int| 0 <= w < outputs@.len() && parent_dir((#[trigger] outputs@[w])@) == Some(dirs@[k]@);
        assert(nonempty_parent(outputs@[w]@) == Some(lv[i as int].0));
        return true;
    }
    assert forall|w: int| 0 <= w < outputs@.len() implies nonempty_parent((#[trigger] outputs@[w])@) != Some(lv[i as int].0) by {
        if nonempty_parent(outputs@[w]@) is Some {
            let k = choose|k: int| 0 <= k < dirs@.len() && Some((#[trigger] dirs@[k])@) == nonempty_parent(outputs@[w]@);
        }
    }
    contains_text(inputs, src)
}

/// The symlinks and directories that a sandbox adds to the input tree of
/// `req`: `symlinks` (to immutable inputs and named caches), `.jdk` where a
/// JDK is named, and the non-empty parents of the declared outputs. Refused
/// where an added symlink shares its path with another link, with such a
/// directory, or with one of `input_paths`, the entries of the input tree.
pub fn workdir_additions(req: &Process, symlinks: &Vec<WorkdirSymlink>, input_paths: &Vec<String>) -> (r: Result<
    WorkdirAdditions,
    CapturedWorkdirError,
>)
    ensures
        r is Err <==> any_clash(link_entries(*req, symlinks@), output_paths(*req), input_paths@),
        r matches Err(e) ==> e is Fatal,
        r matches Ok(a) ==> {
            &&& link_views(a.links@) == link_entries(*req, symlinks@)
            &&& is_parent_dirs_of(a.dirs@, output_paths(*req))
        },
{
    let mut links = clone_links(symlinks);
    if let Some(jdk) = &req.jdk_home {
        proof { reveal_strlit(".jdk"); }
        links.push(WorkdirSymlink { src: String::from_str(".jdk"), dst: jdk.clone() });
        assert(link_views(links@) =~= link_entries(*req, symlinks@));
    }
    let mut outputs: Vec<String> = Vec::new();
    let mut k: usize = 0;
    while k < req.output_files.len()
        invariant
            k <= req.output_files@.len(),
            outputs@ == req.output_files@.take(k as int),
        decreases req.output_files@.len() - k,
    {
        outputs.push(req.output_files[k].clone());
        assert(outputs@ =~= req.output_files@.take(k + 1));
        k = k + 1;
    }
    let mut k: usize = 0;
    while k < req.output_directories.len()
        invariant
            k <= req.output_directories@.len(),
            outputs@ == req.output_files@ + req.output_directories@.take(k as int),
        decreases req.output_directories@.len() - k,
    {
        outputs.push(req.output_directories[k].clone());
        assert(outputs@ =~= req.output_files@ + req.output_directories@.take(k + 1));
        k = k + 1;
    }
    assert(outputs@ =~= output_paths(*req));
    let dirs = parent_dirs(&outputs);
    let ghost lv = link_views(links@);
    let mut i: usize = 0;
    while i < links.len()
        invariant
            i <= links@.len(),
            lv == link_views(links@),
            lv == link_entries(*req, symlinks@),
            outputs@ == output_paths(*req),
            is_parent_dirs_of(dirs@, outputs@),
            forall|j: int| 0 <= j < i ==> !#[trigger] clashes_at(lv, j, outputs@, input_paths@),
        decreases links@.len() - i,
    {
        if clashes_at_exec(&links, i, &outputs, &dirs, input_paths) {
            proof { reveal_strlit("Symlinks added to the sandbox collide with other entries"); }
            return Err(CapturedWorkdirError::Fatal(
                String::from_str("Symlinks added to the sandbox collide with other entries"),
            ));
        }
        i = i + 1;
    }
    Ok(WorkdirAdditions { links, dirs })
}

/// Whether some string of `s` holds the characters `x`.
pub open spec fn has_text(s: Seq<String>, x: Seq<char>) -> bool {
    exists|k: int| 0 <= k < s.len() && (#[trigger] s[k])@ == x
}

/// The entries added to a sandbox are fixed by the request: two sets of
/// additions made for the same request, symlinks and input tree hold the
/// same symlinks, in the same order, and the same directories.
pub proof fn lemma_additions_are_determined(
    req: Process,
    symlinks: Seq<WorkdirSymlink>,
    a: WorkdirAdditions,
    b: WorkdirAdditions,
)
    requires
        link_views(a.links@) == link_entries(req, symlinks),
        is_parent_dirs_of(a.dirs@, output_paths(req)),
        link_views(b.links@) == link_entries(req, symlinks),
        is_parent_dirs_of(b.dirs@, output_paths(req)),
    ensures
        link_views(a.links@) == link_views(b.links@),
        a.dirs@.len() == b.dirs@.len(),
        forall|x: Seq<char>| #[trigger] has_text(a.dirs@, x) <==> has_text(b.dirs@, x),
{
    let outs = output_paths(req);
    assert forall|x: Seq<char>| #[trigger] has_text(a.dirs@, x) implies has_text(b.dirs@, x) by {
        let k = choose|k: int| 0 <= k < a.dirs@.len() && (#[trigger] a.dirs@[k])@ == x;
        let j = choose|j: int| 0 <= j < outs.len() && parent_dir((#[trigger] outs[j])@) == Some(a.dirs@[k]@);
        assert(nonempty_parent(outs[j]@) == Some(x));
    }
    assert forall|x: Seq<char>| #[trigger] has_text(b.dirs@, x) implies has_text(a.dirs@, x) by {
        let k = choose|k: int| 0 <= k < b.dirs@.len() && (#[trigger] b.dirs@[k])@ == x;
        let j = choose|j: int| 0 <= j < outs.len() && parent_dir((#[trigger] outs[j])@) == Some(b.dirs@[k]@);
        assert(nonempty_parent(outs[j]@) == Some(x));
    }
    lemma_distinct_same_members_same_len(a.dirs@, b.dirs@);
}

proof fn lemma_distinct_same_members_same_len(a: Seq<String>, b: Seq<String>)
    requires
        forall|k1: int, k2: int| 0 <= k1 < k2 < a.len() ==> (#[trigger] a[k1])@ != (#[trigger] a[k2])@,
        forall|k1: int, k2: int| 0 <= k1 < k2 < b.len() ==> (#[trigger] b[k1])@ != (#[trigger] b[k2])@,
        forall|x: Seq<char>| #[trigger] has_text(a, x) <==> has_text(b, x),
    ensures
        a.len() == b.len(),
{
    let sa = a.map_values(|s: String| s@);
    let sb = b.map_values(|s: String| s@);
    assert(sa.no_duplicates()) by {
        assert forall|i: int, j: int| 0 <= i < sa.len() && 0 <= j < sa.len() && i != j implies sa[i] != sa[j] by {
            if i < j { assert(a[i]@ != a[j]@); } else { assert(a[j]@ != a[i]@); }
        }
    }
    assert(sb.no_duplicates()) by {
        assert forall|i: int, j: int| 0 <= i < sb.len() && 0 <= j < sb.len() && i != j implies sb[i] != sb[j] by {
            if i < j { assert(b[i]@ != b[j]@); } else { assert(b[j]@ != b[i]@); }
        }
    }
    assert(sa.to_set() =~= sb.to_set()) by {
        assert forall|x: Seq<char>| sa.to_set().contains(x) implies sb.to_set().contains(x) by {
            let k = choose|k: int| 0 <= k < sa.len() && sa[k] == x;
            assert(a[k]@ == x);
            assert(has_text(a, x));
            let m = choose|m: int| 0 <= m < b.len() && (#[trigger] b[m])@ == x;
            assert(sb[m] == x);
        }
        assert forall|x: Seq<char>| sb.to_set().contains(x) implies sa.to_set().contains(x) by {
            let k = choose|k: int| 0 <= k < sb.len() && sb[k] == x;
            assert(b[k]@ == x);
            assert(has_text(b, x));
            assert(has_text(a, x));
            let m = choose|m: int| 0 <= m < a.len() && (#[trigger] a[m])@ == x;
            assert(sa[m] == x);
        }
    }
    sa.unique_seq_to_set();
    sb.unique_seq_to_set();
}

} // verus!
