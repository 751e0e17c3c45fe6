//! The text of `__run.sh`, a script that replays a process by hand in a kept
//! sandbox.
use vstd::prelude::*;
use vstd::utf8::{decode_utf8, valid_utf8};
use crate::workdir::{join_path, join_text, opt_view};

verus! {

/// What shell-quote's `Bash::quote_vec` makes of a string.
pub uninterp spec fn bash_quoted(s: Seq<char>) -> Seq<u8>;

/// Relies on shell_quote's `Bash::quote_vec`: the string quoted for bash,
/// and `''` for the empty string.
#[verifier::external_body]
fn bash_quote(s: &str) -> (r: Vec<u8>)
    ensures
        r@ == bash_quoted(s@),
        s@.len() == 0 ==> r@ == seq![39u8, 39u8],
{
    shell_quote::Bash::quote_vec(s)
}

/// Relies on `String::from_utf8`: it takes exactly the valid UTF-8 byte
/// strings, and decodes them.
#[verifier::external_body]
fn utf8_string(b: Vec<u8>) -> (r: Option<String>)
    ensures
        r is Some <==> valid_utf8(b@),
        r matches Some(s) ==> s@ == decode_utf8(b@),
{
    String::from_utf8(b).ok()
}

/// The bash quoting of `s`, as text.
pub open spec fn quoted(s: Seq<char>) -> Seq<char> {
    decode_utf8(bash_quoted(s))
}

/// Whether the bash quoting of `s` is valid UTF-8.
pub open spec fn quotable(s: Seq<char>) -> bool {
    valid_utf8(bash_quoted(s))
}

/// `s` quoted for bash, where the quoting is text.
pub fn quote_arg(s: &str) -> (r: Option<String>)
    ensures
        r is Some <==> quotable(s@),
        r matches Some(q) ==> q@ == quoted(s@),
{
    utf8_string(bash_quote(s))
}

/// The items of `parts` separated by single spaces.
pub open spec fn join_spaced(parts: Seq<Seq<char>>) -> Seq<char>
    decreases parts.len(),
{
    if parts.len() == 0 {
        Seq::empty()
    } else if parts.len() == 1 {
        parts[0]
    } else {
        join_spaced(parts.drop_last()) + seq![' '] + parts.last()
    }
}

/// `KEY=VALUE` with the value quoted, for each variable.
pub open spec fn env_assignments(env: Seq<(String, String)>) -> Seq<Seq<char>> {
    env.map_values(|kv: (String, String)| kv.0@ + seq!['='] + quoted(kv.1@))
}

/// Each argument quoted.
pub open spec fn quoted_args(argv: Seq<String>) -> Seq<Seq<char>> {
    argv.map_values(|a: String| quoted(a@))
}

pub open spec fn script_head() -> Seq<char> {
    "#!/usr/bin/env bash\n# This command line should execute the same process as pants did internally.\ncd "@
}

pub open spec fn env_head() -> Seq<char> {
    "\nenv -i "@
}

/// The replay script for a process run in directory `cwd`.
pub open spec fn script_text(cwd: Seq<char>, env: Seq<(String, String)>, argv: Seq<String>) -> Seq<char> {
    script_head() + quoted(cwd) + env_head() + join_spaced(env_assignments(env)) + seq![' ']
        + join_spaced(quoted_args(argv)) + seq!['\n']
}

/// Whether every piece that the script quotes can be quoted as text.
pub open spec fn script_quotable(cwd: Seq<char>, env: Seq<(String, String)>, argv: Seq<String>) -> bool {
    &&& quotable(cwd)
    &&& forall|i: int| 0 <= i < env.len() ==> quotable((#[trigger] env[i]).1@)
    &&& forall|i: int| 0 <= i < argv.len() ==> quotable((#[trigger] argv[i])@)
}

/// The directory a process runs in: its working directory inside the
/// sandbox at `workdir`, or the sandbox itself.
pub open spec fn run_dir(workdir: Seq<char>, working_directory: Option<Seq<char>>) -> Seq<char> {
    match working_directory {
        Some(wd) => join_path(workdir, wd),
        None => workdir,
    }
}

/// Appends the quoted pieces, separated by spaces, to `out`.
fn append_spaced(out: &mut String, parts: &Vec<String>)
    ensures
        final(out)@ == old(out)@ + join_spaced(parts@.map_values(|p: String| p@)),
{
    let ghost views = parts@.map_values(|p: String| p@);
    let mut i: usize = 0;
    while i < parts.len()
        invariant
            i <= parts@.len(),
            views == parts@.map_values(|p: String| p@),
            out@ == old(out)@ + join_spaced(views.take(i as int)),
        decreases parts@.len() - i,
    {
        let ghost before = views.take(i as int);
        assert(views.take(i + 1).drop_last() =~= before);
        if i > 0 {
            crate::text::push_char(out, ' ');
        } else {
            assert(before =~= Seq::<Seq<char>>::empty());
        }
        out.append(parts[i].as_str());
        i = i + 1;
    }
    assert(views.take(i as int) =~= views);
}

/// The text of `__run.sh` for a process with environment `env`, working
/// directory `working_directory` and arguments `argv`, run in the sandbox at
/// `workdir`: a bash script that changes to the process's directory and runs
/// it with exactly that environment. `None` where a piece cannot be quoted
/// as text.
pub fn run_sh_script(
    workdir: &str,
    env: &Vec<(String, String)>,
    working_directory: &Option<String>,
    argv: &Vec<String>,
) -> (r: Option<String>)
    ensures
        r is Some <==> script_quotable(run_dir(workdir@, opt_view(*working_directory)), env@, argv@),
        r matches Some(t) ==> t@ == script_text(run_dir(workdir@, opt_view(*working_directory)), env@, argv@),
{
    let cwd = match working_directory {
        Some(wd) => join_text(workdir, wd.as_str()),
        None => String::from_str(workdir),
    };
    let ghost dir = run_dir(workdir@, opt_view(*working_directory));
    assert(cwd@ == dir);
    let cwd_q = match quote_arg(cwd.as_str()) {
        Some(q) => q,
        None => return None,
    };
    let mut assignments: Vec<String> = Vec::new();
    let mut i: usize = 0;
    while i < env.len()
        invariant
            i <= env@.len(),
            assignments@.len() == i,
            forall|j: int| 0 <= j < i ==> quotable((#[trigger] env@[j]).1@),
            forall|j: int| 0 <= j < i ==> (#[trigger] assignments@[j])@ == env@[j].0@ + seq!['='] + quoted(env@[j].1@),
        decreases env@.len() - i,
    {
        let q = match quote_arg(env[i].1.as_str()) {
            Some(q) => q,
            None => return None,
        };
        let mut a = env[i].0.clone();
        crate::text::push_char(&mut a, '=');
        a.append(q.as_str());
        assignments.push(a);
        i = i + 1;
    }
    let mut args: Vec<String> = Vec::new();
    let mut i: usize = 0;
    while i < argv.len()
        invariant
            i <= argv@.len(),
            args@.len() == i,
            forall|j: int| 0 <= j < i ==> quotable((#[trigger] argv@[j])@),
            forall|j: int| 0 <= j < i ==> (#[trigger] args@[j])@ == quoted(argv@[j]@),
        decreases argv@.len() - i,
    {
        let q = match quote_arg(argv[i].as_str()) {
            Some(q) => q,
            None => return None,
        };
        args.push(q);
        i = i + 1;
    }
    assert(assignments@.map_values(|p: String| p@) =~= env_assignments(env@));
    assert(args@.map_values(|p: String| p@) =~= quoted_args(argv@));
    proof {
        reveal_strlit("#!/usr/bin/env bash\n# This command line should execute the same process as pants did internally.\ncd ");
        reveal_strlit("\nenv -i ");
    }
    let mut text = String::from_str(
        "#!/usr/bin/env bash\n# This command line should execute the same process as pants did internally.\ncd ",
    );
    text.append(cwd_q.as_str());
    text.append("\nenv -i ");
    append_spaced(&mut text, &assignments);
    crate::text::push_char(&mut text, ' ');
    append_spaced(&mut text, &args);
    crate::text::push_char(&mut text, '\n');
    assert(text@ =~= script_text(dir, env@, argv@));
    Some(text)
}

} // verus!
