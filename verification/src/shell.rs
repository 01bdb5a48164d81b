//! The state of the shell and what it decides for each job of a command
//! line: `if` / `else` / `fi` change the stack of modes, jobs inside a false
//! branch are skipped, `name=value` assigns a variable, and anything else
//! runs a builtin or an outside program.
use crate::builtins::{decimal, law_exit_status_reads_back};
use crate::commands::{
    builtin_name,
    command_table,
    entries,
    find_command,
    law_lookup_finds_named_builtin,
    lookup,
    Builtin,
    Command,
};
use crate::text::{
    chars_of,
    owned,
    push_str,
    str_equal,
    string_from,
    trim_chars,
    trim_seq,
};
use crate::to_num::{leading_signed_number, to_num_signed};
use crate::variables::{assigned, set_var, Variables};
use vstd::prelude::*;
use vstd::wrapping::isize_specs::signed_crop;

verus! {

/// One level of `if`: whether the jobs of the current branch run.
pub struct Mode {
    value: bool,
}

impl View for Mode {
    type V = bool;

    closed spec fn view(&self) -> bool {
        self.value
    }
}

impl Mode {
    /// Whether the jobs of the current branch of this `if` run.
    pub fn value(&self) -> (b: bool)
        ensures
            b == self@,
    {
        self.value
    }
}

/// The stack of modes as booleans, innermost `if` first.
pub open spec fn mode_values(modes: Seq<Mode>) -> Seq<bool> {
    modes.map_values(|m: Mode| m@)
}

/// The state of a shell: its variables and its stack of modes.
pub struct Shell {
    pub variables: Variables,
    pub mode: Vec<Mode>,
}

impl Shell {
    /// A shell with no variables, outside any `if`.
    pub fn new() -> (s: Shell)
        ensures
            s.variables@ == Map::<Seq<char>, Seq<char>>::empty(),
            s.mode@.len() == 0,
    {
        Shell { variables: Variables::new(), mode: Vec::new() }
    }
}

/// One job of a command line: a command and its arguments.
pub struct Job {
    pub command: String,
    pub args: Vec<String>,
}

/// What the shell does for a job, beyond its own state.
pub enum JobAction {
    /// Nothing more.
    Nothing,
    /// Print this line.
    Message(String),
    /// Run this builtin with these arguments, the command name first.
    Builtin(Builtin, Vec<String>),
    /// Run the program named by the first argument with the others.
    External(Vec<String>),
    /// End the session: the job ran the builtin `exit`.
    Exit,
}

/// A `JobAction` in terms of character sequences.
pub enum ActionView {
    Nothing,
    Message(Seq<char>),
    Builtin(Builtin, Seq<Seq<char>>),
    External(Seq<Seq<char>>),
    Exit,
}

impl View for JobAction {
    type V = ActionView;

    open spec fn view(&self) -> ActionView {
        match self {
            JobAction::Nothing => ActionView::Nothing,
            JobAction::Message(m) => ActionView::Message(m@),
            JobAction::Builtin(b, a) => ActionView::Builtin(*b, a.deep_view()),
            JobAction::External(a) => ActionView::External(a.deep_view()),
            JobAction::Exit => ActionView::Exit,
        }
    }
}

/// The outcome of `if left operator right`: whether it holds, and the message the
/// shell prints when the condition is malformed (it then counts as false).
/// `==` and `!=` compare the words; the others compare them as signed numbers.
pub open spec fn condition(args: Seq<Seq<char>>) -> (bool, Option<Seq<char>>) {
    if args.len() < 1 {
        (false, Some("No left hand side"@))
    } else if args.len() < 2 {
        (false, Some("No comparison operator"@))
    } else if args.len() < 3 {
        (false, Some("No right hand side"@))
    } else {
        let left = args[0];
        let operator = args[1];
        let right = args[2];
        let l: isize = signed_crop(leading_signed_number(left, 10));
        let r: isize = signed_crop(leading_signed_number(right, 10));
        if operator == "=="@ {
            (left == right, None)
        } else if operator == "!="@ {
            (left != right, None)
        } else if operator == ">"@ {
            (l > r, None)
        } else if operator == ">="@ {
            (l >= r, None)
        } else if operator == "<"@ {
            (l < r, None)
        } else if operator == "<="@ {
            (l <= r, None)
        } else {
            (false, Some("Unknown comparison: "@ + operator))
        }
    }
}

/// The position of the first `c` in `s`, or the length of `s` if there is none.
pub open spec fn position_of(s: Seq<char>, c: char) -> int
    decreases s.len(),
{
    if s.len() == 0 {
        0
    } else if s[0] == c {
        0
    } else {
        1 + position_of(s.drop_first(), c)
    }
}

/// The words, each preceded by a space.
pub open spec fn spaced(words: Seq<Seq<char>>) -> Seq<char>
    decreases words.len(),
{
    if words.len() == 0 {
        Seq::empty()
    } else {
        spaced(words.drop_last()) + seq![' '] + words.last()
    }
}

/// Whether some enclosing `if` is in a false branch.
pub open spec fn skipping(modes: Seq<bool>) -> bool {
    modes.contains(false)
}

/// The name assigned by a job `name=value args...`.
pub open spec fn assignment_name(command: Seq<char>) -> Seq<char> {
    trim_seq(command.take(position_of(command, '=')))
}

/// The value assigned by a job `name=value args...`: the trimmed value, then
/// each further argument after a space.
pub open spec fn assignment_value(command: Seq<char>, args: Seq<Seq<char>>) -> Seq<char> {
    trim_seq(command.skip(position_of(command, '=') + 1)) + spaced(args)
}

/// Whether the command names one of the words that steer the mode stack.
pub open spec fn is_mode_word(command: Seq<char>) -> bool {
    command == "if"@ || command == "else"@ || command == "fi"@
}

/// The stack of modes after a job.
pub open spec fn next_modes(modes: Seq<bool>, command: Seq<char>, args: Seq<Seq<char>>) -> Seq<
    bool,
> {
    if command == "if"@ {
        seq![condition(args).0] + modes
    } else if command == "else"@ {
        if modes.len() > 0 {
            modes.update(0, !modes[0])
        } else {
            modes
        }
    } else if command == "fi"@ {
        if modes.len() > 0 {
            modes.drop_first()
        } else {
            modes
        }
    } else {
        modes
    }
}

/// The variables after a job: only an assignment outside a false branch
/// changes them.
pub open spec fn next_variables(
    modes: Seq<bool>,
    vars: Map<Seq<char>, Seq<char>>,
    command: Seq<char>,
    args: Seq<Seq<char>>,
) -> Map<Seq<char>, Seq<char>> {
    if !is_mode_word(command) && !skipping(modes) && position_of(command, '=') < command.len() {
        assigned(vars, assignment_name(command), assignment_value(command, args))
    } else {
        vars
    }
}

/// What the shell does for a job beyond its state; a job that runs the
/// builtin `exit` ends the session.
pub open spec fn job_action(
    modes: Seq<bool>,
    commands: Seq<Command>,
    command: Seq<char>,
    args: Seq<Seq<char>>,
) -> ActionView {
    if command == "if"@ {
        match condition(args).1 {
            Some(m) => ActionView::Message(m),
            None => ActionView::Nothing,
        }
    } else if command == "else"@ {
        if modes.len() > 0 {
            ActionView::Nothing
        } else {
            ActionView::Message("Syntax error: else found with no previous if"@)
        }
    } else if command == "fi"@ {
        if modes.len() > 0 {
            ActionView::Nothing
        } else {
            ActionView::Message("Syntax error: fi found with no previous if"@)
        }
    } else if skipping(modes) {
        ActionView::Nothing
    } else if position_of(command, '=') < command.len() {
        ActionView::Nothing
    } else {
        let full = seq![command] + args;
        match find_command(commands, command) {
            Some(i) => if commands[i].main == Builtin::Exit {
                ActionView::Exit
            } else {
                ActionView::Builtin(commands[i].main, full)
            },
            None => ActionView::External(full),
        }
    }
}

/// Evaluates the arguments of an `if`.
fn eval_condition(args: &Vec<String>) -> (r: (bool, Option<String>))
    ensures
        r.0 == condition(args.deep_view()).0,
        r.1 matches Some(m) ==> condition(args.deep_view()).1 == Some(m@),
        r.1 is None ==> condition(args.deep_view()).1 is None,
{
    if args.len() < 1 {
        return (false, Some(owned("No left hand side")));
    }
    if args.len() < 2 {
        return (false, Some(owned("No comparison operator")));
    }
    if args.len() < 3 {
        return (false, Some(owned("No right hand side")));
    }
    let left = args[0].as_str();
    let operator = args[1].as_str();
    let right = args[2].as_str();
    proof {
        assert(args.deep_view()[0] == left@);
        assert(args.deep_view()[1] == operator@);
        assert(args.deep_view()[2] == right@);
    }
    if str_equal(operator, "==") {
        (str_equal(left, right), None)
    } else if str_equal(operator, "!=") {
        (!str_equal(left, right), None)
    } else if str_equal(operator, ">") {
        (to_num_signed(left) > to_num_signed(right), None)
    } else if str_equal(operator, ">=") {
        (to_num_signed(left) >= to_num_signed(right), None)
    } else if str_equal(operator, "<") {
        (to_num_signed(left) < to_num_signed(right), None)
    } else if str_equal(operator, "<=") {
        (to_num_signed(left) <= to_num_signed(right), None)
    } else {
        let mut m: Vec<char> = Vec::new();
        push_str(&mut m, "Unknown comparison: ");
        push_str(&mut m, operator);
        (false, Some(string_from(m.as_slice())))
    }
}

/// The position of the first `c` in `v`, or its length.
fn find_char(v: &[char], c: char) -> (i: usize)
    ensures
        i == position_of(v@, c),
{
    let mut i: usize = 0;
    proof {
        assert(v@.skip(0) =~= v@);
    }
    while i < v.len() && v[i] != c
        invariant
            i <= v.len(),
            position_of(v@, c) == i + position_of(v@.skip(i as int), c),
        decreases v.len() - i,
    {
        proof {
            assert(v@.skip(i as int).drop_first() =~= v@.skip(i + 1));
        }
        i = i + 1;
    }
    i
}

/// Whether some mode of the stack is false.
fn any_false(modes: &Vec<Mode>) -> (b: bool)
    ensures
        b == skipping(mode_values(modes@)),
{
    let mut i: usize = 0;
    while i < modes.len()
        invariant
            i <= modes.len(),
            forall|j: int| 0 <= j < i ==> mode_values(modes@)[j],
        decreases modes.len() - i,
    {
        if !modes[i].value {
            proof {
                assert(mode_values(modes@)[i as int] == false);
            }
            return true;
        }
        i = i + 1;
    }
    false
}

/// The value of an assignment: `first`, then each argument after a space.
fn spaced_value(first: Vec<char>, args: &Vec<String>) -> (r: Vec<char>)
    ensures
        r@ == first@ + spaced(args.deep_view()),
{
    let mut r = first;
    let mut i: usize = 0;
    while i < args.len()
        invariant
            i <= args.len(),
            r@ == first@ + spaced(args.deep_view().take(i as int)),
        decreases args.len() - i,
    {
        r.push(' ');
        push_str(&mut r, args[i].as_str());
        proof {
            let t = args.deep_view().take(i + 1);
            assert(t.drop_last() =~= args.deep_view().take(i as int));
            assert(r@ =~= first@ + spaced(t));
        }
        i = i + 1;
    }
    proof {
        assert(args.deep_view().take(i as int) =~= args.deep_view());
    }
    r
}

/// The arguments of a command run: the command name, then its arguments.
fn full_args(job: &Job) -> (r: Vec<String>)
    ensures
        r.deep_view() == seq![job.command@] + job.args.deep_view(),
{
    let mut r: Vec<String> = Vec::new();
    r.push(owned(job.command.as_str()));
    let mut i: usize = 0;
    while i < job.args.len()
        invariant
            i <= job.args.len(),
            r.deep_view() == seq![job.command@] + job.args.deep_view().take(i as int),
        decreases job.args.len() - i,
    {
        let ghost before = r.deep_view();
        let a = owned(job.args[i].as_str());
        r.push(a);
        proof {
            assert forall|j: int| 0 <= j < before.len() implies #[trigger] r.deep_view()[j]
                == before[j] by {}
            assert(r.deep_view()[before.len() as int] == job.args.deep_view()[i as int]);
            assert(r.deep_view() =~= seq![job.command@] + job.args.deep_view().take(i + 1));
        }
        i = i + 1;
    }
    proof {
        assert(job.args.deep_view().take(i as int) =~= job.args.deep_view());
    }
    r
}

/// Takes the decisions of the shell for one job: updates the modes and the
/// variables, and says what else is to be done.
pub fn step_job(shell: &mut Shell, commands: &[Command], job: &Job) -> (a: JobAction)
    ensures
        mode_values(final(shell).mode@) == next_modes(
            mode_values(old(shell).mode@),
            job.command@,
            job.args.deep_view(),
        ),
        final(shell).variables@ == next_variables(
            mode_values(old(shell).mode@),
            old(shell).variables@,
            job.command@,
            job.args.deep_view(),
        ),
        a@ == job_action(
            mode_values(old(shell).mode@),
            commands@,
            job.command@,
            job.args.deep_view(),
        ),
{
    let ghost modes0 = mode_values(shell.mode@);
    let command = job.command.as_str();
    if str_equal(command, "if") {
        let (value, message) = eval_condition(&job.args);
        shell.mode.insert(0, Mode { value });
        proof {
            assert(mode_values(shell.mode@) =~= seq![value] + modes0);
        }
        return match message {
            Some(m) => JobAction::Message(m),
            None => JobAction::Nothing,
        };
    }
    if str_equal(command, "else") {
        if shell.mode.len() > 0 {
            let flipped = !shell.mode[0].value;
            shell.mode.set(0, Mode { value: flipped });
            proof {
                assert(mode_values(shell.mode@) =~= modes0.update(0, !modes0[0]));
            }
            return JobAction::Nothing;
        } else {
            return JobAction::Message(owned("Syntax error: else found with no previous if"));
        }
    }
    if str_equal(command, "fi") {
        if shell.mode.len() > 0 {
            shell.mode.remove(0);
            proof {
                assert(mode_values(shell.mode@) =~= modes0.drop_first());
            }
            return JobAction::Nothing;
        } else {
            return JobAction::Message(owned("Syntax error: fi found with no previous if"));
        }
    }
    if any_false(&shell.mode) {
        return JobAction::Nothing;
    }
    let cmd = chars_of(command);
    let eq: usize = find_char(cmd.as_slice(), '=');
    if eq < cmd.len() {
        let (head, tail) = cmd.as_slice().split_at(eq);
        let (_, after) = tail.split_at(1);
        proof {
            assert(head@ =~= cmd@.take(eq as int));
            assert(after@ =~= cmd@.skip(eq + 1));
        }
        let name = string_from(trim_chars(head).as_slice());
        let value = string_from(spaced_value(trim_chars(after), &job.args).as_slice());
        set_var(&mut shell.variables, name.as_str(), value.as_str());
        return JobAction::Nothing;
    }
    let args = full_args(job);
    match lookup(commands, command) {
        Some(i) => {
            if commands[i].main == Builtin::Exit {
                JobAction::Exit
            } else {
                JobAction::Builtin(commands[i].main, args)
            }
        },
        None => JobAction::External(args),
    }
}

proof fn lemma_mode_words_distinct()
    ensures
        "if"@ != "else"@,
        "if"@ != "fi"@,
        "else"@ != "fi"@,
{
    reveal_strlit("if");
    reveal_strlit("else");
    reveal_strlit("fi");
    assert("if"@[0] != "else"@[0]);
    assert("if"@[0] != "fi"@[0]);
    assert("else"@[0] != "fi"@[0]);
}

/// An `if` followed by its `fi` leaves the stack of modes as it was.
pub proof fn law_if_then_fi_restores(
    modes: Seq<bool>,
    if_args: Seq<Seq<char>>,
    fi_args: Seq<Seq<char>>,
)
    ensures
        next_modes(next_modes(modes, "if"@, if_args), "fi"@, fi_args) == modes,
{
    lemma_mode_words_distinct();
    let pushed = next_modes(modes, "if"@, if_args);
    assert(pushed == seq![condition(if_args).0] + modes);
    assert(pushed.drop_first() =~= modes);
}

/// Two `else` in a row leave the stack of modes as it was.
pub proof fn law_else_twice_restores(modes: Seq<bool>, a: Seq<Seq<char>>, b: Seq<Seq<char>>)
    ensures
        next_modes(next_modes(modes, "else"@, a), "else"@, b) == modes,
{
    lemma_mode_words_distinct();
    if modes.len() > 0 {
        assert(modes.update(0, !modes[0]).update(0, modes[0]) =~= modes);
    }
}

/// `else` turns the innermost branch around and leaves the outer ones alone.
pub proof fn law_else_flips_innermost(modes: Seq<bool>, args: Seq<Seq<char>>)
    requires
        modes.len() > 0,
    ensures
        next_modes(modes, "else"@, args).len() == modes.len(),
        next_modes(modes, "else"@, args)[0] == !modes[0],
        forall|i: int| 1 <= i < modes.len() ==> #[trigger] next_modes(modes, "else"@, args)[i] == modes[i],
{
    lemma_mode_words_distinct();
}

/// Inside a false branch, a job that is not `if`, `else` or `fi` changes
/// nothing and runs nothing.
pub proof fn law_skipped_job_is_inert(
    modes: Seq<bool>,
    vars: Map<Seq<char>, Seq<char>>,
    commands: Seq<Command>,
    command: Seq<char>,
    args: Seq<Seq<char>>,
)
    requires
        skipping(modes),
        !is_mode_word(command),
    ensures
        next_modes(modes, command, args) == modes,
        next_variables(modes, vars, command, args) == vars,
        job_action(modes, commands, command, args) == ActionView::Nothing,
{
}

/// A malformed condition counts as false.
pub proof fn law_malformed_condition_is_false(args: Seq<Seq<char>>)
    ensures
        condition(args).1 is Some ==> !condition(args).0,
{
}

/// The jobs of a false branch run again once its `if` is closed by `fi`,
/// when no outer branch is false.
pub proof fn law_fi_ends_skipping(modes: Seq<bool>, if_args: Seq<Seq<char>>, fi_args: Seq<Seq<char>>)
    requires
        !skipping(modes),
    ensures
        skipping(next_modes(modes, "if"@, if_args)) == !condition(if_args).0,
        !skipping(next_modes(next_modes(modes, "if"@, if_args), "fi"@, fi_args)),
{
    law_if_then_fi_restores(modes, if_args, fi_args);
    let pushed = next_modes(modes, "if"@, if_args);
    assert(pushed == seq![condition(if_args).0] + modes);
    if !condition(if_args).0 {
        assert(pushed[0] == false);
    } else {
        assert forall|i: int| 0 <= i < pushed.len() implies pushed[i] by {
            if i > 0 {
                assert(pushed[i] == modes[i - 1]);
            }
        }
    }
}

/// The stack of modes after the jobs (command, arguments), in order.
pub open spec fn modes_after(modes: Seq<bool>, jobs: Seq<(Seq<char>, Seq<Seq<char>>)>) -> Seq<
    bool,
>
    decreases jobs.len(),
{
    if jobs.len() == 0 {
        modes
    } else {
        modes_after(next_modes(modes, jobs[0].0, jobs[0].1), jobs.drop_first())
    }
}

/// How many of the jobs have `word` as their command.
pub open spec fn count_command(jobs: Seq<(Seq<char>, Seq<Seq<char>>)>, word: Seq<char>) -> int
    decreases jobs.len(),
{
    if jobs.len() == 0 {
        0
    } else {
        (if jobs[0].0 == word {
            1int
        } else {
            0int
        }) + count_command(jobs.drop_first(), word)
    }
}

/// No job `fi` of the sequence comes when the stack of modes is empty.
pub open spec fn fi_matched(modes: Seq<bool>, jobs: Seq<(Seq<char>, Seq<Seq<char>>)>) -> bool
    decreases jobs.len(),
{
    jobs.len() == 0 || ((jobs[0].0 == "fi"@ ==> modes.len() > 0) && fi_matched(
        next_modes(modes, jobs[0].0, jobs[0].1),
        jobs.drop_first(),
    ))
}

/// Over the jobs of a command line, the depth of the stack of modes grows by
/// one for each `if` and shrinks by one for each `fi`; `else` and every other
/// job, skipped or not, keep it, as long as no `fi` comes without its `if`.
pub proof fn law_mode_depth(modes: Seq<bool>, jobs: Seq<(Seq<char>, Seq<Seq<char>>)>)
    requires
        fi_matched(modes, jobs),
    ensures
        modes_after(modes, jobs).len() == modes.len() + count_command(jobs, "if"@)
            - count_command(jobs, "fi"@),
    decreases jobs.len(),
{
    if jobs.len() > 0 {
        lemma_mode_words_distinct();
        let next = next_modes(modes, jobs[0].0, jobs[0].1);
        law_mode_depth(next, jobs.drop_first());
        if jobs[0].0 == "if"@ {
            assert(next.len() == modes.len() + 1);
        } else if jobs[0].0 == "fi"@ {
            assert(next.len() == modes.len() - 1);
        } else {
            assert(next.len() == modes.len());
        }
    }
}

proof fn lemma_operators_distinct()
    ensures
        "=="@ != "!="@,
        "=="@ != ">"@,
        "=="@ != ">="@,
        "=="@ != "<"@,
        "=="@ != "<="@,
        "!="@ != ">"@,
        "!="@ != ">="@,
        "!="@ != "<"@,
        "!="@ != "<="@,
        ">"@ != ">="@,
        ">"@ != "<"@,
        ">"@ != "<="@,
        ">="@ != "<"@,
        ">="@ != "<="@,
        "<"@ != "<="@,
{
    reveal_strlit("==");
    reveal_strlit("!=");
    reveal_strlit(">");
    reveal_strlit(">=");
    reveal_strlit("<");
    reveal_strlit("<=");
    assert("=="@[0] != "!="@[0]);
    assert("=="@[0] != ">"@[0]);
    assert("=="@[0] != ">="@[0]);
    assert("=="@[0] != "<"@[0]);
    assert("=="@[0] != "<="@[0]);
    assert("!="@[0] != ">"@[0]);
    assert("!="@[0] != ">="@[0]);
    assert("!="@[0] != "<"@[0]);
    assert("!="@[0] != "<="@[0]);
    assert(">"@.len() != ">="@.len());
    assert(">"@[0] != "<"@[0]);
    assert(">"@[0] != "<="@[0]);
    assert(">="@[0] != "<"@[0]);
    assert(">="@[0] != "<="@[0]);
    assert("<"@.len() != "<="@.len());
}

/// `==` holds exactly when the two words are the same, and `!=` exactly when
/// they differ; both are well formed, and each is the negation of the other.
pub proof fn law_condition_word_equality(x: Seq<char>, y: Seq<char>)
    ensures
        condition(seq![x, "=="@, y]) == (x == y, Option::<Seq<char>>::None),
        condition(seq![x, "!="@, y]) == (x != y, Option::<Seq<char>>::None),
        condition(seq![x, "!="@, y]).0 == !condition(seq![x, "=="@, y]).0,
{
    lemma_operators_distinct();
}

/// Every word equals itself and is as large as itself: `x == x`, `x >= x` and
/// `x <= x` hold, `x != x`, `x > x` and `x < x` do not.
pub proof fn law_condition_reflexive(x: Seq<char>)
    ensures
        condition(seq![x, "=="@, x]).0,
        condition(seq![x, ">="@, x]).0,
        condition(seq![x, "<="@, x]).0,
        !condition(seq![x, "!="@, x]).0,
        !condition(seq![x, ">"@, x]).0,
        !condition(seq![x, "<"@, x]).0,
{
    lemma_operators_distinct();
}

/// The numeric comparisons are a total order seen from both sides: `>=` is
/// the negation of `<`, `<=` the negation of `>`, and swapping the words
/// turns `>` into `<` and `>=` into `<=`. None of them is malformed.
pub proof fn law_condition_order(x: Seq<char>, y: Seq<char>)
    ensures
        condition(seq![x, ">="@, y]).0 == !condition(seq![x, "<"@, y]).0,
        condition(seq![x, "<="@, y]).0 == !condition(seq![x, ">"@, y]).0,
        condition(seq![x, ">"@, y]).0 == condition(seq![y, "<"@, x]).0,
        condition(seq![x, ">="@, y]).0 == condition(seq![y, "<="@, x]).0,
        condition(seq![x, ">"@, y]).1 is None,
        condition(seq![x, ">="@, y]).1 is None,
        condition(seq![x, "<"@, y]).1 is None,
        condition(seq![x, "<="@, y]).1 is None,
{
    lemma_operators_distinct();
}

/// On the decimal forms of two numbers (as the shell writes exit codes), the
/// numeric comparisons compare the numbers.
pub proof fn law_condition_compares_numbers(a: i32, b: i32)
    ensures
        condition(seq![decimal(a as int), ">"@, decimal(b as int)]).0 == (a > b),
        condition(seq![decimal(a as int), ">="@, decimal(b as int)]).0 == (a >= b),
        condition(seq![decimal(a as int), "<"@, decimal(b as int)]).0 == (a < b),
        condition(seq![decimal(a as int), "<="@, decimal(b as int)]).0 == (a <= b),
{
    lemma_operators_distinct();
    law_exit_status_reads_back(a);
    law_exit_status_reads_back(b);
}

/// With the table of builtins, a job runs the builtin whose name is the
/// job's command, and a job whose command names no builtin runs an outside
/// program of that name.
pub proof fn law_job_runs_named_builtin(
    modes: Seq<bool>,
    commands: Seq<Command>,
    command: Seq<char>,
    args: Seq<Seq<char>>,
)
    requires
        entries(commands) == command_table(),
    ensures
        job_action(modes, commands, command, args) matches ActionView::Builtin(b, full) ==> (
        builtin_name(b) == command && full == seq![command] + args),
        job_action(modes, commands, command, args) matches ActionView::External(full) ==> full[0]
            == command,
{
    law_lookup_finds_named_builtin(commands, command);
}

} // verus!
