//! The builtin commands of the shell: their names, their help texts, and
//! what `help` prints about them.
use crate::order::{lemma_sorted_by_neighbours, strictly_sorted};
use crate::text::{chars_equal, chars_of, owned, seq_less};
use vstd::prelude::*;

verus! {

/// What a builtin command does; the library names it, the program runs it.
#[derive(Clone, Copy, Debug, PartialEq, Eq, Structural)]
pub enum Builtin {
    Cat,
    Cd,
    Echo,
    Exit,
    Free,
    Help,
    Ls,
    Mkdir,
    Poweroff,
    Ps,
    Pwd,
    Read,
    Rm,
    Rmdir,
    Run,
    Sleep,
    Touch,
}

/// A builtin command: its name, its help text, and what it runs.
pub struct Command {
    pub name: &'static str,
    pub help: &'static str,
    pub main: Builtin,
}

/// The builtin commands of the shell, in ascending order of names.
pub open spec fn command_table() -> Seq<(Seq<char>, Seq<char>, Builtin)> {
    seq![
        ("cat"@, "To display a file in the output\n    cat <your_file>"@, Builtin::Cat),
        ("cd"@, "To change the current directory\n    cd <your_destination>"@, Builtin::Cd),
        ("echo"@, "To display some text in the output\n    echo Hello world!"@, Builtin::Echo),
        ("exit"@, "To exit the curent session"@, Builtin::Exit),
        ("free"@, "Show memory information\n    free"@, Builtin::Free),
        ("help"@, "Display a little helper for a given command\n    help ls"@, Builtin::Help),
        ("ls"@, "To list the content of the current directory\n    ls"@, Builtin::Ls),
        (
            "mkdir"@,
            "To create a directory in the current directory\n    mkdir <my_new_directory>"@,
            Builtin::Mkdir,
        ),
        (
            "poweroff"@,
            "poweroff utility has the machine remove power, if possible\n\tpoweroff"@,
            Builtin::Poweroff,
        ),
        ("ps"@, "Show process list\n    ps"@, Builtin::Ps),
        ("pwd"@, "To output the path of the current directory\n    pwd"@, Builtin::Pwd),
        ("read"@, "To read some variables\n    read <my_variable>"@, Builtin::Read),
        ("rm"@, "Remove a file\n    rm <file>"@, Builtin::Rm),
        ("rmdir"@, "Remove a directory\n    rmdir <directory>"@, Builtin::Rmdir),
        ("run"@, "Run a script\n    run <script>"@, Builtin::Run),
        ("sleep"@, "Make a sleep in the current session\n    sleep <number_of_seconds>"@, Builtin::Sleep),
        ("touch"@, "To create a file, in the current directory\n    touch <my_file>"@, Builtin::Touch),
    ]
}

/// The names of the builtin commands, in table order.
pub open spec fn command_names() -> Seq<Seq<char>> {
    command_table().map_values(|e: (Seq<char>, Seq<char>, Builtin)| e.0)
}

/// The name by which the shell knows each builtin.
pub open spec fn builtin_name(b: Builtin) -> Seq<char> {
    match b {
        Builtin::Cat => "cat"@,
        Builtin::Cd => "cd"@,
        Builtin::Echo => "echo"@,
        Builtin::Exit => "exit"@,
        Builtin::Free => "free"@,
        Builtin::Help => "help"@,
        Builtin::Ls => "ls"@,
        Builtin::Mkdir => "mkdir"@,
        Builtin::Poweroff => "poweroff"@,
        Builtin::Ps => "ps"@,
        Builtin::Pwd => "pwd"@,
        Builtin::Read => "read"@,
        Builtin::Rm => "rm"@,
        Builtin::Rmdir => "rmdir"@,
        Builtin::Run => "run"@,
        Builtin::Sleep => "sleep"@,
        Builtin::Touch => "touch"@,
    }
}

/// Every entry of the table runs the builtin of its own name.
pub proof fn law_table_runs_named_builtin()
    ensures
        forall|i: int|
            0 <= i < command_table().len() ==> builtin_name(#[trigger] command_table()[i].2)
                == command_table()[i].0,
{
}

proof fn lemma_first_match(commands: Seq<Command>, name: Seq<char>, k: int)
    requires
        0 <= k < commands.len(),
        commands[k].name@ == name,
    ensures
        exists|i: int|
            0 <= i < commands.len() && commands[i].name@ == name && forall|j: int|
                0 <= j < i ==> commands[j].name@ != name,
    decreases k,
{
    if exists|j: int| 0 <= j < k && commands[j].name@ == name {
        let j: int = choose|j: int| 0 <= j < k && commands[j].name@ == name;
        lemma_first_match(commands, name, j);
    } else {
        assert(forall|j: int| 0 <= j < k ==> commands[j].name@ != name);
    }
}

/// What `find_command` finds is a command of that name.
proof fn lemma_find_command_found(commands: Seq<Command>, name: Seq<char>)
    ensures
        find_command(commands, name) matches Some(i) ==> 0 <= i < commands.len()
            && commands[i].name@ == name,
{
    if exists|i: int| 0 <= i < commands.len() && commands[i].name@ == name {
        let k: int = choose|i: int| 0 <= i < commands.len() && commands[i].name@ == name;
        lemma_first_match(commands, name, k);
    }
}

/// Looking a command up in the table finds the builtin of that very name, so
/// a job `rm file` runs `Builtin::Rm` and never another builtin.
pub proof fn law_lookup_finds_named_builtin(commands: Seq<Command>, name: Seq<char>)
    requires
        entries(commands) == command_table(),
    ensures
        find_command(commands, name) matches Some(i) ==> 0 <= i < commands.len()
            && builtin_name(commands[i].main) == name,
{
    lemma_find_command_found(commands, name);
    if find_command(commands, name) is Some {
        let i: int = find_command(commands, name)->0;
        law_table_runs_named_builtin();
        assert(entries(commands)[i] == command_table()[i]);
        assert(builtin_name(command_table()[i].2) == command_table()[i].0);
    }
}

/// `help` ends on a usage line: after a line break and some indentation,
/// the command's own name, then nothing or its arguments after a space.
pub open spec fn ends_with_usage(help: Seq<char>, name: Seq<char>) -> bool {
    exists|text: Seq<char>, indent: Seq<char>, rest: Seq<char>|
        #![trigger text + seq!['\n'] + indent + name + rest]
        help == text + seq!['\n'] + indent + name + rest && (forall|i: int|
            0 <= i < indent.len() ==> indent[i] == ' ' || indent[i] == '\t') && (forall|i: int|
            0 <= i < rest.len() ==> rest[i] != '\n') && (rest.len() == 0 || rest[0] == ' ')
}

proof fn lemma_usage(help: Seq<char>, name: Seq<char>, text: Seq<char>, indent: Seq<char>, rest: Seq<char>)
    requires
        help == text + seq!['\n'] + indent + name + rest,
        forall|i: int| 0 <= i < indent.len() ==> indent[i] == ' ' || indent[i] == '\t',
        forall|i: int| 0 <= i < rest.len() ==> rest[i] != '\n',
        rest.len() == 0 || rest[0] == ' ',
    ensures
        ends_with_usage(help, name),
{
}

proof fn usage_cat()
    ensures
        ends_with_usage("To display a file in the output\n    cat <your_file>"@, "cat"@),
{
    reveal_strlit("cat");
    reveal_strlit("To display a file in the output\n    cat <your_file>");
    reveal_strlit("To display a file in the output");
    reveal_strlit("    ");
    reveal_strlit(" <your_file>");
    assert("To display a file in the output\n    cat <your_file>"@ =~= "To display a file in the output"@ + seq!['\n'] + "    "@ + "cat"@ + " <your_file>"@);
    lemma_usage("To display a file in the output\n    cat <your_file>"@, "cat"@, "To display a file in the output"@, "    "@, " <your_file>"@);
}

proof fn usage_cd()
    ensures
        ends_with_usage("To change the current directory\n    cd <your_destination>"@, "cd"@),
{
    reveal_strlit("cd");
    reveal_strlit("To change the current directory\n    cd <your_destination>");
    reveal_strlit("To change the current directory");
    reveal_strlit("    ");
    reveal_strlit(" <your_destination>");
    assert("To change the current directory\n    cd <your_destination>"@ =~= "To change the current directory"@ + seq!['\n'] + "    "@ + "cd"@ + " <your_destination>"@);
    lemma_usage("To change the current directory\n    cd <your_destination>"@, "cd"@, "To change the current directory"@, "    "@, " <your_destination>"@);
}

proof fn usage_echo()
    ensures
        ends_with_usage("To display some text in the output\n    echo Hello world!"@, "echo"@),
{
    reveal_strlit("echo");
    reveal_strlit("To display some text in the output\n    echo Hello world!");
    reveal_strlit("To display some text in the output");
    reveal_strlit("    ");
    reveal_strlit(" Hello world!");
    assert("To display some text in the output\n    echo Hello world!"@ =~= "To display some text in the output"@ + seq!['\n'] + "    "@ + "echo"@ + " Hello world!"@);
    lemma_usage("To display some text in the output\n    echo Hello world!"@, "echo"@, "To display some text in the output"@, "    "@, " Hello world!"@);
}

proof fn usage_free()
    ensures
        ends_with_usage("Show memory information\n    free"@, "free"@),
{
    reveal_strlit("free");
    reveal_strlit("Show memory information\n    free");
    reveal_strlit("Show memory information");
    reveal_strlit("    ");
    assert("Show memory information\n    free"@ =~= "Show memory information"@ + seq!['\n'] + "    "@ + "free"@ + Seq::<char>::empty());
    lemma_usage("Show memory information\n    free"@, "free"@, "Show memory information"@, "    "@, Seq::<char>::empty());
}

proof fn usage_help()
    ensures
        ends_with_usage("Display a little helper for a given command\n    help ls"@, "help"@),
{
    reveal_strlit("help");
    reveal_strlit("Display a little helper for a given command\n    help ls");
    reveal_strlit("Display a little helper for a given command");
    reveal_strlit("    ");
    reveal_strlit(" ls");
    assert("Display a little helper for a given command\n    help ls"@ =~= "Display a little helper for a given command"@ + seq!['\n'] + "    "@ + "help"@ + " ls"@);
    lemma_usage("Display a little helper for a given command\n    help ls"@, "help"@, "Display a little helper for a given command"@, "    "@, " ls"@);
}

proof fn usage_ls()
    ensures
        ends_with_usage("To list the content of the current directory\n    ls"@, "ls"@),
{
    reveal_strlit("ls");
    reveal_strlit("To list the content of the current directory\n    ls");
    reveal_strlit("To list the content of the current directory");
    reveal_strlit("    ");
    assert("To list the content of the current directory\n    ls"@ =~= "To list the content of the current directory"@ + seq!['\n'] + "    "@ + "ls"@ + Seq::<char>::empty());
    lemma_usage("To list the content of the current directory\n    ls"@, "ls"@, "To list the content of the current directory"@, "    "@, Seq::<char>::empty());
}

proof fn usage_mkdir()
    ensures
        ends_with_usage("To create a directory in the current directory\n    mkdir <my_new_directory>"@, "mkdir"@),
{
    reveal_strlit("mkdir");
    reveal_strlit("To create a directory in the current directory\n    mkdir <my_new_directory>");
    reveal_strlit("To create a directory in the current directory");
    reveal_strlit("    ");
    reveal_strlit(" <my_new_directory>");
    assert("To create a directory in the current directory\n    mkdir <my_new_directory>"@ =~= "To create a directory in the current directory"@ + seq!['\n'] + "    "@ + "mkdir"@ + " <my_new_directory>"@);
    lemma_usage("To create a directory in the current directory\n    mkdir <my_new_directory>"@, "mkdir"@, "To create a directory in the current directory"@, "    "@, " <my_new_directory>"@);
}

proof fn usage_poweroff()
    ensures
        ends_with_usage("poweroff utility has the machine remove power, if possible\n\tpoweroff"@, "poweroff"@),
{
    reveal_strlit("poweroff");
    reveal_strlit("poweroff utility has the machine remove power, if possible\n\tpoweroff");
    reveal_strlit("poweroff utility has the machine remove power, if possible");
    reveal_strlit("\t");
    assert("poweroff utility has the machine remove power, if possible\n\tpoweroff"@ =~= "poweroff utility has the machine remove power, if possible"@ + seq!['\n'] + "\t"@ + "poweroff"@ + Seq::<char>::empty());
    lemma_usage("poweroff utility has the machine remove power, if possible\n\tpoweroff"@, "poweroff"@, "poweroff utility has the machine remove power, if possible"@, "\t"@, Seq::<char>::empty());
}

proof fn usage_ps()
    ensures
        ends_with_usage("Show process list\n    ps"@, "ps"@),
{
    reveal_strlit("ps");
    reveal_strlit("Show process list\n    ps");
    reveal_strlit("Show process list");
    reveal_strlit("    ");
    assert("Show process list\n    ps"@ =~= "Show process list"@ + seq!['\n'] + "    "@ + "ps"@ + Seq::<char>::empty());
    lemma_usage("Show process list\n    ps"@, "ps"@, "Show process list"@, "    "@, Seq::<char>::empty());
}

proof fn usage_pwd()
    ensures
        ends_with_usage("To output the path of the current directory\n    pwd"@, "pwd"@),
{
    reveal_strlit("pwd");
    reveal_strlit("To output the path of the current directory\n    pwd");
    reveal_strlit("To output the path of the current directory");
    reveal_strlit("    ");
    assert("To output the path of the current directory\n    pwd"@ =~= "To output the path of the current directory"@ + seq!['\n'] + "    "@ + "pwd"@ + Seq::<char>::empty());
    lemma_usage("To output the path of the current directory\n    pwd"@, "pwd"@, "To output the path of the current directory"@, "    "@, Seq::<char>::empty());
}

proof fn usage_read()
    ensures
        ends_with_usage("To read some variables\n    read <my_variable>"@, "read"@),
{
    reveal_strlit("read");
    reveal_strlit("To read some variables\n    read <my_variable>");
    reveal_strlit("To read some variables");
    reveal_strlit("    ");
    reveal_strlit(" <my_variable>");
    assert("To read some variables\n    read <my_variable>"@ =~= "To read some variables"@ + seq!['\n'] + "    "@ + "read"@ + " <my_variable>"@);
    lemma_usage("To read some variables\n    read <my_variable>"@, "read"@, "To read some variables"@, "    "@, " <my_variable>"@);
}

proof fn usage_rm()
    ensures
        ends_with_usage("Remove a file\n    rm <file>"@, "rm"@),
{
    reveal_strlit("rm");
    reveal_strlit("Remove a file\n    rm <file>");
    reveal_strlit("Remove a file");
    reveal_strlit("    ");
    reveal_strlit(" <file>");
    assert("Remove a file\n    rm <file>"@ =~= "Remove a file"@ + seq!['\n'] + "    "@ + "rm"@ + " <file>"@);
    lemma_usage("Remove a file\n    rm <file>"@, "rm"@, "Remove a file"@, "    "@, " <file>"@);
}

proof fn usage_rmdir()
    ensures
        ends_with_usage("Remove a directory\n    rmdir <directory>"@, "rmdir"@),
{
    reveal_strlit("rmdir");
    reveal_strlit("Remove a directory\n    rmdir <directory>");
    reveal_strlit("Remove a directory");
    reveal_strlit("    ");
    reveal_strlit(" <directory>");
    assert("Remove a directory\n    rmdir <directory>"@ =~= "Remove a directory"@ + seq!['\n'] + "    "@ + "rmdir"@ + " <directory>"@);
    lemma_usage("Remove a directory\n    rmdir <directory>"@, "rmdir"@, "Remove a directory"@, "    "@, " <directory>"@);
}

proof fn usage_run()
    ensures
        ends_with_usage("Run a script\n    run <script>"@, "run"@),
{
    reveal_strlit("run");
    reveal_strlit("Run a script\n    run <script>");
    reveal_strlit("Run a script");
    reveal_strlit("    ");
    reveal_strlit(" <script>");
    assert("Run a script\n    run <script>"@ =~= "Run a script"@ + seq!['\n'] + "    "@ + "run"@ + " <script>"@);
    lemma_usage("Run a script\n    run <script>"@, "run"@, "Run a script"@, "    "@, " <script>"@);
}

proof fn usage_sleep()
    ensures
        ends_with_usage("Make a sleep in the current session\n    sleep <number_of_seconds>"@, "sleep"@),
{
    reveal_strlit("sleep");
    reveal_strlit("Make a sleep in the current session\n    sleep <number_of_seconds>");
    reveal_strlit("Make a sleep in the current session");
    reveal_strlit("    ");
    reveal_strlit(" <number_of_seconds>");
    assert("Make a sleep in the current session\n    sleep <number_of_seconds>"@ =~= "Make a sleep in the current session"@ + seq!['\n'] + "    "@ + "sleep"@ + " <number_of_seconds>"@);
    lemma_usage("Make a sleep in the current session\n    sleep <number_of_seconds>"@, "sleep"@, "Make a sleep in the current session"@, "    "@, " <number_of_seconds>"@);
}

proof fn usage_touch()
    ensures
        ends_with_usage("To create a file, in the current directory\n    touch <my_file>"@, "touch"@),
{
    reveal_strlit("touch");
    reveal_strlit("To create a file, in the current directory\n    touch <my_file>");
    reveal_strlit("To create a file, in the current directory");
    reveal_strlit("    ");
    reveal_strlit(" <my_file>");
    assert("To create a file, in the current directory\n    touch <my_file>"@ =~= "To create a file, in the current directory"@ + seq!['\n'] + "    "@ + "touch"@ + " <my_file>"@);
    lemma_usage("To create a file, in the current directory\n    touch <my_file>"@, "touch"@, "To create a file, in the current directory"@, "    "@, " <my_file>"@);
}

/// The help text of every builtin but `exit` ends on the usage line of that
/// builtin, so `help rmdir` shows how to call `rmdir`.
pub proof fn law_help_shows_own_usage()
    ensures
        forall|i: int|
            0 <= i < command_table().len() && command_table()[i].0 != "exit"@ ==> ends_with_usage(
                #[trigger] command_table()[i].1,
                command_table()[i].0,
            ),
{
    usage_cat();
    usage_cd();
    usage_echo();
    usage_free();
    usage_help();
    usage_ls();
    usage_mkdir();
    usage_poweroff();
    usage_ps();
    usage_pwd();
    usage_read();
    usage_rm();
    usage_rmdir();
    usage_run();
    usage_sleep();
    usage_touch();
}

/// `help name` with the table of builtins prints one line: the help text of
/// the builtin `name`, which ends on the usage line of `name`, or the
/// message that there is none.
pub proof fn law_help_describes_asked_command(commands: Seq<Command>, args: Seq<Seq<char>>)
    requires
        entries(commands) == command_table(),
        args.len() > 1,
        args[1] != "exit"@,
    ensures
        help_output(commands, args).len() == 1,
        help_output(commands, args)[0] == no_help_message() || ends_with_usage(
            help_output(commands, args)[0],
            args[1],
        ),
{
    let known = helped(commands);
    lemma_find_command_found(known, args[1]);
    if find_command(known, args[1]) is Some {
        let i: int = find_command(known, args[1])->0;
        commands.lemma_filter_contains_rev(|c: Command| c.name@ != "help"@, known[i]);
        assert(known.contains(known[i]));
        let j: int = choose|j: int| 0 <= j < commands.len() && commands[j] == known[i];
        assert(entries(commands)[j] == command_table()[j]);
        law_help_shows_own_usage();
        assert(command_table()[j].0 == args[1]);
        assert(ends_with_usage(command_table()[j].1, command_table()[j].0));
    }
}

/// The builtin commands are listed in strictly ascending order of names, so
/// `help` lists them in the order of a sorted map.
pub proof fn law_command_table_ascending()
    ensures
        strictly_sorted(command_names()),
{
    let n = command_names();
    reveal_strlit("cat");
    reveal_strlit("cd");
    reveal_strlit("echo");
    reveal_strlit("exit");
    reveal_strlit("free");
    reveal_strlit("help");
    reveal_strlit("ls");
    reveal_strlit("mkdir");
    reveal_strlit("poweroff");
    reveal_strlit("ps");
    reveal_strlit("pwd");
    reveal_strlit("read");
    reveal_strlit("rm");
    reveal_strlit("rmdir");
    reveal_strlit("run");
    reveal_strlit("sleep");
    reveal_strlit("touch");
    reveal_with_fuel(seq_less, 4);
    assert(n.len() == 17);
    assert forall|i: int| 0 <= i < n.len() - 1 implies seq_less(#[trigger] n[i], n[i + 1]) by {
        if i == 0 { assert(seq_less("cat"@, "cd"@)); }
        else if i == 1 { assert(seq_less("cd"@, "echo"@)); }
        else if i == 2 { assert(seq_less("echo"@, "exit"@)); }
        else if i == 3 { assert(seq_less("exit"@, "free"@)); }
        else if i == 4 { assert(seq_less("free"@, "help"@)); }
        else if i == 5 { assert(seq_less("help"@, "ls"@)); }
        else if i == 6 { assert(seq_less("ls"@, "mkdir"@)); }
        else if i == 7 { assert(seq_less("mkdir"@, "poweroff"@)); }
        else if i == 8 { assert(seq_less("poweroff"@, "ps"@)); }
        else if i == 9 { assert(seq_less("ps"@, "pwd"@)); }
        else if i == 10 { assert(seq_less("pwd"@, "read"@)); }
        else if i == 11 { assert(seq_less("read"@, "rm"@)); }
        else if i == 12 { assert(seq_less("rm"@, "rmdir"@)); }
        else if i == 13 { assert(seq_less("rmdir"@, "run"@)); }
        else if i == 14 { assert(seq_less("run"@, "sleep"@)); }
        else { assert(seq_less("sleep"@, "touch"@)); }
    }
    lemma_sorted_by_neighbours(n);
}

/// The names of a list of commands, in order.
pub open spec fn names_of(commands: Seq<Command>) -> Seq<Seq<char>> {
    commands.map_values(|c: Command| c.name@)
}

/// The entries of a list of commands, as (name, help, builtin).
pub open spec fn entries(commands: Seq<Command>) -> Seq<(Seq<char>, Seq<char>, Builtin)> {
    commands.map_values(|c: Command| (c.name@, c.help@, c.main))
}

impl Command {
    /// The table of builtin commands.
    pub fn map() -> (r: Vec<Command>)
        ensures
            entries(r@) == command_table(),
    {
        let r = vec![
            Command {
                name: "cat",
                help: "To display a file in the output\n    cat <your_file>",
                main: Builtin::Cat,
            },
            Command {
                name: "cd",
                help: "To change the current directory\n    cd <your_destination>",
                main: Builtin::Cd,
            },
            Command {
                name: "echo",
                help: "To display some text in the output\n    echo Hello world!",
                main: Builtin::Echo,
            },
            Command { name: "exit", help: "To exit the curent session", main: Builtin::Exit },
            Command { name: "free", help: "Show memory information\n    free", main: Builtin::Free },
            Command {
                name: "help",
                help: "Display a little helper for a given command\n    help ls",
                main: Builtin::Help,
            },
            Command {
                name: "ls",
                help: "To list the content of the current directory\n    ls",
                main: Builtin::Ls,
            },
            Command {
                name: "mkdir",
                help: "To create a directory in the current directory\n    mkdir <my_new_directory>",
                main: Builtin::Mkdir,
            },
            Command {
                name: "poweroff",
                help: "poweroff utility has the machine remove power, if possible\n\tpoweroff",
                main: Builtin::Poweroff,
            },
            Command { name: "ps", help: "Show process list\n    ps", main: Builtin::Ps },
            Command {
                name: "pwd",
                help: "To output the path of the current directory\n    pwd",
                main: Builtin::Pwd,
            },
            Command {
                name: "read",
                help: "To read some variables\n    read <my_variable>",
                main: Builtin::Read,
            },
            Command { name: "rm", help: "Remove a file\n    rm <file>", main: Builtin::Rm },
            Command {
                name: "rmdir",
                help: "Remove a directory\n    rmdir <directory>",
                main: Builtin::Rmdir,
            },
            Command { name: "run", help: "Run a script\n    run <script>", main: Builtin::Run },
            Command {
                name: "sleep",
                help: "Make a sleep in the current session\n    sleep <number_of_seconds>",
                main: Builtin::Sleep,
            },
            Command {
                name: "touch",
                help: "To create a file, in the current directory\n    touch <my_file>",
                main: Builtin::Touch,
            },
        ];
        assert(entries(r@) =~= command_table());
        r
    }
}

/// The position of the first command called `name`, if any.
pub open spec fn find_command(commands: Seq<Command>, name: Seq<char>) -> Option<int> {
    if exists|i: int| 0 <= i < commands.len() && commands[i].name@ == name {
        Some(
            choose|i: int|
                0 <= i < commands.len() && commands[i].name@ == name && forall|j: int|
                    0 <= j < i ==> commands[j].name@ != name,
        )
    } else {
        None
    }
}

proof fn lemma_find_first(commands: Seq<Command>, name: Seq<char>, k: int)
    requires
        0 <= k < commands.len(),
        commands[k].name@ == name,
        forall|j: int| 0 <= j < k ==> commands[j].name@ != name,
    ensures
        find_command(commands, name) == Some(k),
{
    let i: int = choose|i: int|
        0 <= i < commands.len() && commands[i].name@ == name && forall|j: int|
            0 <= j < i ==> commands[j].name@ != name;
    assert(0 <= i < commands.len() && commands[i].name@ == name && forall|j: int|
        0 <= j < i ==> commands[j].name@ != name);
    if i < k {
    } else if k < i {
        assert(commands[k].name@ == name);
    }
}

/// Finds the first command called `name`.
pub fn lookup(commands: &[Command], name: &str) -> (r: Option<usize>)
    ensures
        r matches Some(i) ==> i < commands.len() && find_command(commands@, name@) == Some(i as int),
        r is None ==> find_command(commands@, name@) is None,
{
    let n = chars_of(name);
    let mut i: usize = 0;
    while i < commands.len()
        invariant
            i <= commands.len(),
            n@ == name@,
            forall|j: int| 0 <= j < i ==> commands@[j].name@ != name@,
        decreases commands.len() - i,
    {
        let c = chars_of(commands[i].name);
        if chars_equal(c.as_slice(), n.as_slice()) {
            proof {
                lemma_find_first(commands@, name@, i as int);
            }
            return Some(i);
        }
        i = i + 1;
    }
    None
}

/// The message of `help` for a name that has no help text.
pub open spec fn no_help_message() -> Seq<char> {
    "Command helper not found [run 'help']..."@
}

/// The names that `help` knows: every command but `help` itself.
pub open spec fn helped(commands: Seq<Command>) -> Seq<Command> {
    commands.filter(|c: Command| c.name@ != "help"@)
}

/// What `help` prints: with a command name, its help text (or a message when
/// there is none); without one, the names of the commands, one per line.
pub open spec fn help_output(commands: Seq<Command>, args: Seq<Seq<char>>) -> Seq<Seq<char>> {
    let known = helped(commands);
    if args.len() > 1 {
        match find_command(known, args[1]) {
            Some(i) => seq![known[i].help@],
            None => seq![no_help_message()],
        }
    } else {
        names_of(known)
    }
}

proof fn lemma_help_found(commands: Seq<Command>, args: Seq<Seq<char>>, k: int)
    requires
        args.len() > 1,
        find_command(helped(commands), args[1]) == Some(k),
    ensures
        help_output(commands, args) == seq![helped(commands)[k].help@],
{
}

proof fn lemma_helped_sorted(commands: Seq<Command>)
    requires
        strictly_sorted(names_of(commands)),
    ensures
        strictly_sorted(names_of(helped(commands))),
    decreases commands.len(),
{
    reveal(Seq::filter);
    broadcast use vstd::seq_lib::group_filter_ensures;
    if commands.len() > 0 {
        let init = commands.drop_last();
        let names = names_of(commands);
        assert forall|i: int, j: int| 0 <= i < j < init.len() implies seq_less(
            #[trigger] names_of(init)[i],
            #[trigger] names_of(init)[j],
        ) by {
            assert(names[i] == init[i].name@ && names[j] == init[j].name@);
        }
        lemma_helped_sorted(init);
        let f = helped(init);
        let last = commands.last();
        if last.name@ != "help"@ {
            assert(helped(commands) == f.push(last));
            let g = names_of(helped(commands));
            assert forall|i: int, j: int| 0 <= i < j < g.len() implies seq_less(
                #[trigger] g[i],
                #[trigger] g[j],
            ) by {
                if j < f.len() {
                    assert(g[i] == names_of(f)[i]);
                    assert(g[j] == names_of(f)[j]);
                } else {
                    assert(f.contains(f[i]));
                    init.lemma_filter_contains_rev(|c: Command| c.name@ != "help"@, f[i]);
                    assert(init.contains(f[i]));
                    let k: int = choose|k: int| 0 <= k < init.len() && init[k] == f[i];
                    assert(names[k] == f[i].name@);
                    assert(names[commands.len() - 1] == last.name@);
                }
            }
        } else {
            assert(helped(commands) == f);
        }
    }
}

/// `help` without an argument lists the names of the builtin commands in
/// strictly ascending order, as a sorted map would.
pub proof fn law_help_listing_ascending(commands: Seq<Command>, args: Seq<Seq<char>>)
    requires
        entries(commands) == command_table(),
        args.len() <= 1,
    ensures
        strictly_sorted(help_output(commands, args)),
{
    law_command_table_ascending();
    let names = names_of(commands);
    assert(names =~= command_names()) by {
        assert forall|i: int| 0 <= i < names.len() implies names[i] == command_names()[i] by {
            assert(entries(commands)[i] == command_table()[i]);
        }
    }
    lemma_helped_sorted(commands);
}

/// The lines that `help` prints for the arguments `args` (the command name
/// first, then an optional command to describe).
pub fn help_lines(commands: &[Command], args: &Vec<String>) -> (r: Vec<String>)
    ensures
        r.deep_view() == help_output(commands@, args.deep_view()),
{
    let ghost known = helped(commands@);
    let mut known_list: Vec<&Command> = Vec::new();
    let help_name = chars_of("help");
    let mut i: usize = 0;
    while i < commands.len()
        invariant
            i <= commands.len(),
            help_name@ == "help"@,
            known_list@.len() == helped(commands@.take(i as int)).len(),
            forall|j: int|
                0 <= j < known_list@.len() ==> *#[trigger] known_list@[j] == helped(
                    commands@.take(i as int),
                )[j],
        decreases commands.len() - i,
    {
        let c = chars_of(commands[i].name);
        proof {
            assert(commands@.take(i + 1).drop_last() =~= commands@.take(i as int));
            reveal(Seq::filter);
        }
        if !chars_equal(c.as_slice(), help_name.as_slice()) {
            known_list.push(&commands[i]);
        }
        i = i + 1;
    }
    proof {
        assert(commands@.take(commands@.len() as int) =~= commands@);
    }
    let mut out: Vec<String> = Vec::new();
    if args.len() > 1 {
        let wanted = chars_of(args[1].as_str());
        let mut k: usize = 0;
        while k < known_list.len()
            invariant
                k <= known_list@.len(),
                known == helped(commands@),
                known_list@.len() == known.len(),
                forall|j: int| 0 <= j < known_list@.len() ==> *#[trigger] known_list@[j] == known[j],
                args.len() > 1,
                out@.len() == 0,
                wanted@ == args.deep_view()[1],
                forall|j: int| 0 <= j < k ==> known[j].name@ != wanted@,
            decreases known_list@.len() - k,
        {
            let c = chars_of(known_list[k].name);
            if chars_equal(c.as_slice(), wanted.as_slice()) {
                proof {
                    lemma_find_first(known, wanted@, k as int);
                }
                let h = owned(known_list[k].help);
                out.push(h);
                proof {
                    lemma_help_found(commands@, args.deep_view(), k as int);
                    assert(out.deep_view() =~= help_output(commands@, args.deep_view()));
                }
                return out;
            }
            k = k + 1;
        }
        out.push(owned("Command helper not found [run 'help']..."));
        proof {
            assert(find_command(known, args.deep_view()[1]) is None);
            assert(out.deep_view() =~= help_output(commands@, args.deep_view()));
        }
    } else {
        let mut k: usize = 0;
        while k < known_list.len()
            invariant
                k <= known_list@.len(),
                known == helped(commands@),
                known_list@.len() == known.len(),
                forall|j: int| 0 <= j < known_list@.len() ==> *#[trigger] known_list@[j] == known[j],
                out@.len() == k,
                out.deep_view() == names_of(known.take(k as int)),
            decreases known_list@.len() - k,
        {
            let ghost old_out = out.deep_view();
            let nm = owned(known_list[k].name);
            out.push(nm);
            proof {
                assert(out.deep_view()[k as int] == nm@);
                assert forall|j: int| 0 <= j <= k implies #[trigger] out.deep_view()[j]
                    == known[j].name@ by {
                    if j < k {
                        assert(old_out[j] == known.take(k as int)[j].name@);
                    }
                }
                assert(out.deep_view() =~= names_of(known.take(k + 1)));
            }
            k = k + 1;
        }
        proof {
            assert(known.take(k as int) =~= known);
        }
    }
    out
}

} // verus!
