//! How a session's terminal and command are set up.

use portable_pty::CommandBuilder;
use vstd::prelude::*;

use crate::params::PtyStartParams;

verus! {

/// The size of a terminal, in characters and in pixels.
#[derive(Clone, Copy, Debug, PartialEq, Eq, Structural)]
pub struct PtySize {
    pub rows: u16,
    pub cols: u16,
    pub pixel_width: u16,
    pub pixel_height: u16,
}

/// The columns of a terminal for which none are asked.
pub const DEFAULT_COLS: u16 = 120;

/// The rows of a terminal for which none are asked.
pub const DEFAULT_ROWS: u16 = 40;

/// The size of the terminal that `params` ask for.
pub fn pty_size(params: &PtyStartParams) -> (size: PtySize)
    ensures
        size.cols == (match params.cols {
            Some(cols) => cols,
            None => DEFAULT_COLS,
        }),
        size.rows == (match params.rows {
            Some(rows) => rows,
            None => DEFAULT_ROWS,
        }),
        params.cols is None ==> size.cols == 120,
        params.rows is None ==> size.rows == 40,
        params.cols matches Some(cols) ==> size.cols == cols,
        params.rows matches Some(rows) ==> size.rows == rows,
        size.pixel_width == 0,
        size.pixel_height == 0,
{
    PtySize {
        cols: params.cols.unwrap_or(DEFAULT_COLS),
        rows: params.rows.unwrap_or(DEFAULT_ROWS),
        pixel_width: 0,
        pixel_height: 0,
    }
}

/// The builder of a command that runs in a terminal.
#[verifier::external_type_specification]
#[verifier::external_body]
pub struct ExCommandBuilder(CommandBuilder);

/// The program of a command and its arguments, as `CommandBuilder::get_argv` lists them.
pub uninterp spec fn command_argv(cmd: CommandBuilder) -> Seq<Seq<char>>;

/// The working directory of a command, as `CommandBuilder::get_cwd` reports it.
pub uninterp spec fn command_cwd(cmd: CommandBuilder) -> Option<Seq<char>>;

/// Whether `name` is ASCII without lower-case letters. Two such names are the same variable only if
/// they are equal, also on a system that does not tell upper from lower case in names.
pub open spec fn is_upper_name(name: Seq<char>) -> bool {
    forall|i: int|
        0 <= i < name.len() ==> (#[trigger] name[i] as int) < 0x80 && !('a' <= name[i] && name[i]
            <= 'z')
}

/// Whether all variables of `env` have such names.
pub open spec fn has_upper_names(env: Map<Seq<char>, Seq<char>>) -> bool {
    forall|name: Seq<char>| #[trigger] env.contains_key(name) ==> is_upper_name(name)
}

/// The environment of a command, as `CommandBuilder::get_env` reports it for the names that are
/// ASCII without lower-case letters. It holds no other names. A value that is not Unicode is held
/// with its invalid parts replaced.
pub uninterp spec fn command_env(cmd: CommandBuilder) -> Map<Seq<char>, Seq<char>>;

/// The variables that were set on a command since it was made, as
/// `CommandBuilder::iter_extra_env_as_str` lists them. All others are those of the process that
/// made it.
pub uninterp spec fn command_extra_env(cmd: CommandBuilder) -> Map<Seq<char>, Seq<char>>;

/// `CommandBuilder::new` makes a command of a program without arguments and without a working
/// directory, on which no variable has been set. Of its whole environment nothing is stated: it is
/// that of the running process, with the user's login shell where `SHELL` is not set.
#[verifier::external_body]
fn command_new(program: &str) -> (cmd: CommandBuilder)
    ensures
        command_argv(cmd) == seq![program@],
        command_cwd(cmd) is None,
        command_extra_env(cmd) == (Map::<Seq<char>, Seq<char>>::empty()),
{
    CommandBuilder::new(program)
}

/// `CommandBuilder::arg` puts an argument behind the others. It panics on a builder that names no
/// program.
#[verifier::external_body]
fn command_arg(cmd: &mut CommandBuilder, arg: &str)
    requires
        command_argv(*old(cmd)).len() > 0,
    ensures
        command_argv(*final(cmd)) == command_argv(*old(cmd)).push(arg@),
        command_cwd(*final(cmd)) == command_cwd(*old(cmd)),
        command_env(*final(cmd)) == command_env(*old(cmd)),
        command_extra_env(*final(cmd)) == command_extra_env(*old(cmd)),
{
    cmd.arg(arg)
}

/// `CommandBuilder::cwd` sets the working directory.
#[verifier::external_body]
fn command_set_cwd(cmd: &mut CommandBuilder, dir: &str)
    ensures
        command_argv(*final(cmd)) == command_argv(*old(cmd)),
        command_cwd(*final(cmd)) == Some(dir@),
        command_env(*final(cmd)) == command_env(*old(cmd)),
        command_extra_env(*final(cmd)) == command_extra_env(*old(cmd)),
{
    cmd.cwd(dir)
}

/// `CommandBuilder::env` sets a variable, whether or not it had a value before.
///
/// On Windows it drops a variable whose name differs in case alone; so of the variables set before
/// something is stated only where none has a lower-case letter in its name.
#[verifier::external_body]
fn command_set_env(cmd: &mut CommandBuilder, name: &str, value: &str)
    requires
        is_upper_name(name@),
    ensures
        command_argv(*final(cmd)) == command_argv(*old(cmd)),
        command_cwd(*final(cmd)) == command_cwd(*old(cmd)),
        command_env(*final(cmd)) == command_env(*old(cmd)).insert(name@, value@),
        has_upper_names(command_extra_env(*old(cmd))) ==> command_extra_env(*final(cmd))
            == command_extra_env(*old(cmd)).insert(name@, value@),
{
    cmd.env(name, value)
}

/// The arguments that `params` ask for.
pub open spec fn requested_args(params: PtyStartParams) -> Seq<Seq<char>> {
    match params.args {
        Some(args) => Seq::new(args@.len(), |i: int| args@[i]@),
        None => seq![],
    }
}

/// The names of the variables that a command takes over from the server.
pub open spec fn inherited() -> Seq<Seq<char>> {
    seq!["HOME"@, "PATH"@, "USER"@, "TERM"@, "LANG"@, "SHELL"@]
}

/// Whether the variable `name` is among the first `n` that are taken over and has a value in
/// `ambient`.
pub open spec fn is_forwarded(ambient: Seq<Option<String>>, n: int, name: Seq<char>) -> bool {
    exists|i: int| 0 <= i < n && #[trigger] inherited()[i] == name && ambient[i] is Some
}

/// Whether `env` is `base` with the first `n` variables that are taken over set as in `ambient`.
spec fn forwards(
    env: Map<Seq<char>, Seq<char>>,
    base: Map<Seq<char>, Seq<char>>,
    ambient: Seq<Option<String>>,
    n: int,
) -> bool {
    &&& forall|i: int|
        0 <= i < n && ambient[i] is Some ==> env.contains_key(#[trigger] inherited()[i])
            && env[inherited()[i]] == ambient[i]->0@
    &&& forall|name: Seq<char>|
        !is_forwarded(ambient, n, name) ==> env.contains_key(name) == #[trigger] base.contains_key(
            name,
        ) && (base.contains_key(name) ==> env[name] == base[name])
}

/// Whether `env` is what a command that started out with `base` is given: the variables taken over
/// are set as in `ambient`, `TERM` is always the same, and nothing else changes.
pub open spec fn is_launch_env(
    env: Map<Seq<char>, Seq<char>>,
    base: Map<Seq<char>, Seq<char>>,
    ambient: Seq<Option<String>>,
) -> bool {
    &&& env.contains_key("TERM"@)
    &&& env["TERM"@] == "xterm-256color"@
    &&& forall|i: int|
        0 <= i < inherited().len() && ambient[i] is Some && inherited()[i] != "TERM"@
            ==> env.contains_key(#[trigger] inherited()[i]) && env[inherited()[i]]
            == ambient[i]->0@
    &&& forall|name: Seq<char>|
        name != "TERM"@ && !is_forwarded(ambient, inherited().len() as int, name)
            ==> env.contains_key(name) == #[trigger] base.contains_key(name)
            && (base.contains_key(name) ==> env[name] == base[name])
}

/// The names of the variables whose values [`build_command`] wants, in their order.
pub fn inherited_names() -> (names: [&'static str; 6])
    ensures
        forall|i: int| 0 <= i < 6 ==> (#[trigger] names@[i])@ == inherited()[i],
        names@[0]@ == "HOME"@,
        names@[1]@ == "PATH"@,
        names@[2]@ == "USER"@,
        names@[3]@ == "TERM"@,
        names@[4]@ == "LANG"@,
        names@[5]@ == "SHELL"@,
{
    ["HOME", "PATH", "USER", "TERM", "LANG", "SHELL"]
}

proof fn lemma_inherited_distinct(i: int, j: int)
    requires
        0 <= i < 6,
        0 <= j < 6,
        inherited()[i] == inherited()[j],
    ensures
        i == j,
{
    reveal_strlit("HOME");
    reveal_strlit("PATH");
    reveal_strlit("USER");
    reveal_strlit("TERM");
    reveal_strlit("LANG");
    reveal_strlit("SHELL");
    let initials = seq!['H', 'P', 'U', 'T', 'L', 'S'];
    assert(inherited()[0][0] == 'H');
    assert(inherited()[1][0] == 'P');
    assert(inherited()[2][0] == 'U');
    assert(inherited()[3][0] == 'T');
    assert(inherited()[4][0] == 'L');
    assert(inherited()[5][0] == 'S');
    assert(inherited()[i][0] == initials[i]);
    assert(inherited()[j][0] == initials[j]);
}

proof fn lemma_inherited_upper(i: int)
    requires
        0 <= i < 6,
    ensures
        is_upper_name(inherited()[i]),
{
    reveal_strlit("HOME");
    reveal_strlit("PATH");
    reveal_strlit("USER");
    reveal_strlit("TERM");
    reveal_strlit("LANG");
    reveal_strlit("SHELL");
    assert(is_upper_name("HOME"@));
    assert(is_upper_name("PATH"@));
    assert(is_upper_name("USER"@));
    assert(is_upper_name("TERM"@));
    assert(is_upper_name("LANG"@));
    assert(is_upper_name("SHELL"@));
}

/// Gives a new command its arguments, its working directory and its environment.
pub fn configure_command(
    cmd: &mut CommandBuilder,
    params: &PtyStartParams,
    ambient: &[Option<String>; 6],
)
    requires
        command_argv(*old(cmd)).len() > 0,
    ensures
        command_argv(*final(cmd)) == command_argv(*old(cmd)) + requested_args(*params),
        params.args is None ==> command_argv(*final(cmd)) == command_argv(*old(cmd)),
        params.args matches Some(args) ==> {
            &&& command_argv(*final(cmd)).len() == command_argv(*old(cmd)).len() + args@.len()
            &&& forall|i: int|
                0 <= i < command_argv(*old(cmd)).len() ==> #[trigger] command_argv(*final(cmd))[i]
                    == command_argv(*old(cmd))[i]
            &&& forall|i: int|
                0 <= i < args@.len() ==> command_argv(*final(cmd))[command_argv(*old(cmd)).len()
                    + i] == (#[trigger] args@[i])@
        },
        command_cwd(*final(cmd)) == (match params.cwd {
            Some(dir) => Some(dir@),
            None => command_cwd(*old(cmd)),
        }),
        is_launch_env(command_env(*final(cmd)), command_env(*old(cmd)), ambient@),
        has_upper_names(command_extra_env(*old(cmd))) ==> is_launch_env(
            command_extra_env(*final(cmd)),
            command_extra_env(*old(cmd)),
            ambient@,
        ),
{
    let ghost before = *cmd;
    if let Some(args) = &params.args {
        let mut i: usize = 0;
        while i < args.len()
            invariant
                i <= args@.len(),
                params.args == Some(*args),
                command_argv(before).len() > 0,
                command_argv(*cmd) == command_argv(before) + requested_args(*params).take(i as int),
                command_cwd(*cmd) == command_cwd(before),
                command_env(*cmd) == command_env(before),
                command_extra_env(*cmd) == command_extra_env(before),
            decreases args@.len() - i,
        {
            command_arg(cmd, args[i].as_str());
            assert(requested_args(*params).take(i + 1) == requested_args(*params).take(
                i as int,
            ).push(args@[i as int]@));
            i = i + 1;
        }
        assert(requested_args(*params).take(i as int) == requested_args(*params));
    }
    assert(command_argv(*cmd) == command_argv(before) + requested_args(*params));
    if let Some(dir) = &params.cwd {
        command_set_cwd(cmd, dir.as_str());
    }
    let names = inherited_names();
    let ghost ready = *cmd;
    let mut i: usize = 0;
    while i < 6
        invariant
            i <= 6,
            names@.len() == 6,
            ambient@.len() == 6,
            forall|k: int| 0 <= k < 6 ==> (#[trigger] names@[k])@ == inherited()[k],
            command_argv(*cmd) == command_argv(ready),
            command_cwd(*cmd) == command_cwd(ready),
            forwards(command_env(*cmd), command_env(before), ambient@, i as int),
            has_upper_names(command_extra_env(before)) ==> {
                &&& has_upper_names(command_extra_env(*cmd))
                &&& forwards(
                    command_extra_env(*cmd),
                    command_extra_env(before),
                    ambient@,
                    i as int,
                )
            },
        decreases 6 - i,
    {
        let ghost env = command_env(*cmd);
        let ghost extra = command_extra_env(*cmd);
        proof {
            lemma_inherited_upper(i as int);
        }
        if let Some(value) = &ambient[i] {
            command_set_env(cmd, names[i], value.as_str());
        }
        proof {
            lemma_forwards_one(command_env(*cmd), env, command_env(before), ambient@, i as int);
            if has_upper_names(command_extra_env(before)) {
                lemma_forwards_one(
                    command_extra_env(*cmd),
                    extra,
                    command_extra_env(before),
                    ambient@,
                    i as int,
                );
            }
        }
        i = i + 1;
    }
    proof {
        lemma_inherited_upper(3);
    }
    command_set_env(cmd, "TERM", "xterm-256color");
}

proof fn lemma_forwards_one(
    after: Map<Seq<char>, Seq<char>>,
    env: Map<Seq<char>, Seq<char>>,
    base: Map<Seq<char>, Seq<char>>,
    ambient: Seq<Option<String>>,
    n: int,
)
    requires
        0 <= n < 6,
        forwards(env, base, ambient, n),
        after == (match ambient[n] {
            Some(value) => env.insert(inherited()[n], value@),
            None => env,
        }),
    ensures
        forwards(after, base, ambient, n + 1),
{
    assert forall|i: int| 0 <= i < n + 1 && ambient[i] is Some implies after.contains_key(
        #[trigger] inherited()[i],
    ) && after[inherited()[i]] == ambient[i]->0@ by {
        if i < n && inherited()[i] == inherited()[n] {
            lemma_inherited_distinct(i, n);
        }
    }
    assert forall|name: Seq<char>| !is_forwarded(ambient, n + 1, name) implies after.contains_key(
        name,
    ) == #[trigger] base.contains_key(name) && (base.contains_key(name) ==> after[name]
        == base[name]) by {
        if is_forwarded(ambient, n, name) {
            let i = choose|i: int|
                0 <= i < n && #[trigger] inherited()[i] == name && ambient[i] is Some;
            assert(inherited()[i] == name);
        }
        if ambient[n] is Some {
            assert(inherited()[n] != name);
        }
    }
}

/// Every argument that is asked for is passed on, in its place, and nothing else is.
pub proof fn law_all_arguments_are_passed(params: PtyStartParams)
    ensures
        params.args is None ==> requested_args(params).len() == 0,
        params.args matches Some(args) ==> {
            &&& requested_args(params).len() == args@.len()
            &&& forall|i: int|
                0 <= i < args@.len() ==> requested_args(params)[i] == (#[trigger] args@[i])@
        },
{
}

/// The environment that a command is given differs from the one it started out with in at most six
/// variables: `TERM` is `xterm-256color`, and each of the others has the value that it was to be
/// given, or is as it was where there is none.
pub proof fn law_launch_env_is_exact(
    env: Map<Seq<char>, Seq<char>>,
    base: Map<Seq<char>, Seq<char>>,
    ambient: Seq<Option<String>>,
)
    requires
        ambient.len() == 6,
        is_launch_env(env, base, ambient),
    ensures
        env.contains_key("TERM"@) && env["TERM"@] == "xterm-256color"@,
        match ambient[0] {
            Some(value) => env.contains_key("HOME"@) && env["HOME"@] == value@,
            None => env.contains_key("HOME"@) == base.contains_key("HOME"@) && (base.contains_key(
                "HOME"@,
            ) ==> env["HOME"@] == base["HOME"@]),
        },
        match ambient[1] {
            Some(value) => env.contains_key("PATH"@) && env["PATH"@] == value@,
            None => env.contains_key("PATH"@) == base.contains_key("PATH"@) && (base.contains_key(
                "PATH"@,
            ) ==> env["PATH"@] == base["PATH"@]),
        },
        match ambient[2] {
            Some(value) => env.contains_key("USER"@) && env["USER"@] == value@,
            None => env.contains_key("USER"@) == base.contains_key("USER"@) && (base.contains_key(
                "USER"@,
            ) ==> env["USER"@] == base["USER"@]),
        },
        match ambient[4] {
            Some(value) => env.contains_key("LANG"@) && env["LANG"@] == value@,
            None => env.contains_key("LANG"@) == base.contains_key("LANG"@) && (base.contains_key(
                "LANG"@,
            ) ==> env["LANG"@] == base["LANG"@]),
        },
        match ambient[5] {
            Some(value) => env.contains_key("SHELL"@) && env["SHELL"@] == value@,
            None => env.contains_key("SHELL"@) == base.contains_key("SHELL"@)
                && (base.contains_key("SHELL"@) ==> env["SHELL"@] == base["SHELL"@]),
        },
        forall|name: Seq<char>|
            name != "TERM"@ && name != "HOME"@ && name != "PATH"@ && name != "USER"@ && name
                != "LANG"@ && name != "SHELL"@ ==> env.contains_key(name) == #[trigger]
                base.contains_key(name) && (base.contains_key(name) ==> env[name] == base[name]),
{
    let names = inherited();
    assert(names[0] == "HOME"@ && names[1] == "PATH"@ && names[2] == "USER"@);
    assert(names[3] == "TERM"@ && names[4] == "LANG"@ && names[5] == "SHELL"@);
    assert forall|i: int| 0 <= i < 6 && i != 3 implies #[trigger] names[i] != "TERM"@ && (
    ambient[i] is None ==> !is_forwarded(ambient, 6, names[i])) by {
        if names[i] == names[3] {
            lemma_inherited_distinct(i, 3);
        }
        if ambient[i] is None && is_forwarded(ambient, 6, names[i]) {
            let j = choose|j: int|
                0 <= j < 6 && #[trigger] inherited()[j] == names[i] && ambient[j] is Some;
            lemma_inherited_distinct(i, j);
        }
    }
    assert(names[0] != "TERM"@ && names[1] != "TERM"@ && names[2] != "TERM"@);
    assert(names[4] != "TERM"@ && names[5] != "TERM"@);
    assert(base.contains_key("HOME"@) || !base.contains_key("HOME"@));
    assert(base.contains_key("PATH"@) || !base.contains_key("PATH"@));
    assert(base.contains_key("USER"@) || !base.contains_key("USER"@));
    assert(base.contains_key("LANG"@) || !base.contains_key("LANG"@));
    assert(base.contains_key("SHELL"@) || !base.contains_key("SHELL"@));
    assert forall|name: Seq<char>|
        name != "TERM"@ && name != "HOME"@ && name != "PATH"@ && name != "USER"@ && name != "LANG"@
            && name != "SHELL"@ implies env.contains_key(name) == #[trigger] base.contains_key(name)
        && (base.contains_key(name) ==> env[name] == base[name]) by {
        assert(!is_forwarded(ambient, 6, name));
    }
}

/// The command that `params` ask for, to be run with the values that the variables of
/// [`inherited_names`] have in `ambient`.
///
/// Exactly those of them that have a value, and `TERM`, are set on it. All other variables are left
/// as the running process has them.
pub fn build_command(params: &PtyStartParams, ambient: &[Option<String>; 6]) -> (cmd:
    CommandBuilder)
    ensures
        command_argv(cmd) == seq![params.command@] + requested_args(*params),
        command_argv(cmd)[0] == params.command@,
        params.args is None ==> command_argv(cmd).len() == 1,
        params.args matches Some(args) ==> {
            &&& command_argv(cmd).len() == 1 + args@.len()
            &&& forall|i: int|
                0 <= i < args@.len() ==> command_argv(cmd)[1 + i] == (#[trigger] args@[i])@
        },
        command_cwd(cmd) == (match params.cwd {
            Some(dir) => Some(dir@),
            None => None,
        }),
        is_launch_env(command_extra_env(cmd), Map::empty(), ambient@),
        command_extra_env(cmd).contains_key("TERM"@),
        command_extra_env(cmd)["TERM"@] == "xterm-256color"@,
        command_extra_env(cmd).contains_key("HOME"@) <==> ambient@[0] is Some,
        ambient@[0] matches Some(value) ==> command_extra_env(cmd)["HOME"@] == value@,
        command_extra_env(cmd).contains_key("PATH"@) <==> ambient@[1] is Some,
        ambient@[1] matches Some(value) ==> command_extra_env(cmd)["PATH"@] == value@,
        command_extra_env(cmd).contains_key("USER"@) <==> ambient@[2] is Some,
        ambient@[2] matches Some(value) ==> command_extra_env(cmd)["USER"@] == value@,
        command_extra_env(cmd).contains_key("LANG"@) <==> ambient@[4] is Some,
        ambient@[4] matches Some(value) ==> command_extra_env(cmd)["LANG"@] == value@,
        command_extra_env(cmd).contains_key("SHELL"@) <==> ambient@[5] is Some,
        ambient@[5] matches Some(value) ==> command_extra_env(cmd)["SHELL"@] == value@,
        forall|name: Seq<char>| #[trigger]
            command_extra_env(cmd).contains_key(name) ==> name == "TERM"@ || name == "HOME"@ || name
                == "PATH"@ || name == "USER"@ || name == "LANG"@ || name == "SHELL"@,
        forall|name: Seq<char>| #[trigger]
            command_extra_env(cmd).contains_key(name) ==> command_env(cmd).contains_key(name)
                && command_env(cmd)[name] == command_extra_env(cmd)[name],
{
    let mut cmd = command_new(params.command.as_str());
    configure_command(&mut cmd, params, ambient);
    proof {
        law_launch_env_is_exact(command_extra_env(cmd), Map::empty(), ambient@);
    }
    assert forall|name: Seq<char>| #[trigger]
        command_extra_env(cmd).contains_key(name) implies command_env(cmd).contains_key(name)
        && command_env(cmd)[name] == command_extra_env(cmd)[name] && (name == "TERM"@ || name
        == "HOME"@ || name == "PATH"@ || name == "USER"@ || name == "LANG"@ || name
        == "SHELL"@) by {
        if name != "TERM"@ {
            assert(!Map::<Seq<char>, Seq<char>>::empty().contains_key(name));
            let i = choose|i: int|
                0 <= i < 6 && #[trigger] inherited()[i] == name && ambient@[i] is Some;
            assert(inherited()[i] == name);
        }
    }
    cmd
}

} // verus!
