//! From a command line to jobs: the line is cut into jobs at `;` and line
//! breaks, each job into words at white space, and a word `$name` stands for
//! the value of the variable `name` (the empty word when it is not set).
use crate::order::{char_lists, copy_chars};
use crate::shell::{Job, Shell};
use crate::text::{chars_of, is_white_space, is_whitespace, str_equal, string_from, trim, trim_seq};
use crate::variables::{assigned, variable_line, Variables};
use vstd::prelude::*;

verus! {

/// The characters that end a job.
pub open spec fn is_job_separator(c: char) -> bool {
    c == ';' || c == '\n'
}

/// Whether `c` separates pieces: white space for words, `;` and line breaks for jobs.
pub open spec fn separates(c: char, words: bool) -> bool {
    if words {
        is_white_space(c)
    } else {
        is_job_separator(c)
    }
}

/// The pieces of `s` between separators, empty ones included; there is
/// always at least one.
pub open spec fn pieces(s: Seq<char>, words: bool) -> Seq<Seq<char>>
    decreases s.len(),
{
    if s.len() == 0 {
        seq![Seq::empty()]
    } else {
        let p = pieces(s.drop_last(), words);
        if separates(s.last(), words) {
            p.push(Seq::empty())
        } else {
            p.update(p.len() - 1, p.last().push(s.last()))
        }
    }
}

/// The words of a piece of a command line: its maximal runs of characters
/// other than white space.
pub open spec fn words_of(s: Seq<char>) -> Seq<Seq<char>> {
    pieces(s, true).filter(|w: Seq<char>| w.len() > 0)
}

/// A word with `$name` replaced by the value of `name`.
pub open spec fn expand(word: Seq<char>, vars: Map<Seq<char>, Seq<char>>) -> Seq<char> {
    if word.len() > 0 && word[0] == '$' {
        if vars.contains_key(word.drop_first()) {
            vars[word.drop_first()]
        } else {
            Seq::empty()
        }
    } else {
        word
    }
}

/// The expanded words of each job of a command line, jobs without words left out.
pub open spec fn job_words(s: Seq<char>, vars: Map<Seq<char>, Seq<char>>) -> Seq<Seq<Seq<char>>> {
    pieces(s, false).map_values(
        |p: Seq<char>| words_of(p).map_values(|w: Seq<char>| expand(w, vars)),
    ).filter(|ws: Seq<Seq<char>>| ws.len() > 0)
}

proof fn lemma_pieces_nonempty(s: Seq<char>, words: bool)
    ensures
        pieces(s, words).len() >= 1,
    decreases s.len(),
{
    if s.len() > 0 {
        lemma_pieces_nonempty(s.drop_last(), words);
    }
}

/// Cuts `v` into its pieces.
fn split_pieces(v: &[char], words: bool) -> (r: Vec<Vec<char>>)
    ensures
        char_lists(r@) == pieces(v@, words),
{
    let mut done: Vec<Vec<char>> = Vec::new();
    let mut current: Vec<char> = Vec::new();
    let mut i: usize = 0;
    proof {
        assert(v@.take(0) =~= Seq::<char>::empty());
        assert(char_lists(done@).push(current@) =~= pieces(v@.take(0), words));
    }
    while i < v.len()
        invariant
            i <= v.len(),
            char_lists(done@).push(current@) == pieces(v@.take(i as int), words),
        decreases v.len() - i,
    {
        let c = v[i];
        let sep = if words {
            is_whitespace(c)
        } else {
            c == ';' || c == '\n'
        };
        let ghost before = char_lists(done@);
        let ghost cur = current@;
        proof {
            let t = v@.take(i + 1);
            assert(t.drop_last() =~= v@.take(i as int));
            assert(t.last() == c);
            lemma_pieces_nonempty(v@.take(i as int), words);
        }
        if sep {
            let finished = copy_chars(current.as_slice());
            done.push(finished);
            current = Vec::new();
            proof {
                assert(char_lists(done@) =~= before.push(cur));
                assert(char_lists(done@).push(current@) =~= before.push(cur).push(Seq::empty()));
            }
        } else {
            current.push(c);
            proof {
                assert(char_lists(done@).push(current@) =~= before.push(cur).update(
                    before.len() as int,
                    cur.push(c),
                ));
            }
        }
        i = i + 1;
    }
    proof {
        assert(v@.take(i as int) =~= v@);
    }
    let ghost before = char_lists(done@);
    done.push(current);
    proof {
        assert(char_lists(done@) =~= before.push(done@[before.len() as int]@));
    }
    done
}

/// The words of `v`.
fn split_words(v: &[char]) -> (r: Vec<Vec<char>>)
    ensures
        char_lists(r@) == words_of(v@),
{
    let all = split_pieces(v, true);
    let mut r: Vec<Vec<char>> = Vec::new();
    let mut i: usize = 0;
    while i < all.len()
        invariant
            i <= all.len(),
            char_lists(r@) == char_lists(all@).take(i as int).filter(
                |w: Seq<char>| w.len() > 0,
            ),
        decreases all.len() - i,
    {
        proof {
            assert(char_lists(all@).take(i + 1).drop_last() =~= char_lists(all@).take(i as int));
            reveal(Seq::filter);
        }
        if all[i].len() > 0 {
            let w = copy_chars(all[i].as_slice());
            let ghost before = char_lists(r@);
            r.push(w);
            proof {
                assert(char_lists(r@) =~= before.push(all@[i as int]@));
            }
        }
        i = i + 1;
    }
    proof {
        assert(char_lists(all@).take(i as int) =~= char_lists(all@));
    }
    r
}

/// A word with `$name` replaced by the value of `name`.
fn expand_word(word: &[char], variables: &Variables) -> (r: String)
    ensures
        r@ == expand(word@, variables@),
{
    if word.len() > 0 && word[0] == '$' {
        let (_, name) = word.split_at(1);
        proof {
            assert(name@ =~= word@.drop_first());
        }
        let n = string_from(name);
        match variables.get(n.as_str()) {
            Some(v) => v,
            None => String::new(),
        }
    } else {
        string_from(word)
    }
}

/// The jobs of a command line, with `$name` words expanded.
pub fn parse_jobs(command_string: &str, variables: &Variables) -> (r: Vec<Job>)
    ensures
        r.len() == job_words(command_string@, variables@).len(),
        forall|i: int|
            0 <= i < r.len() ==> seq![#[trigger] r[i].command@] + r[i].args.deep_view()
                == job_words(command_string@, variables@)[i],
{
    let text = chars_of(command_string);
    let parts = split_pieces(text.as_slice(), false);
    let ghost vars = variables@;
    let ghost expanded = pieces(command_string@, false).map_values(
        |p: Seq<char>| words_of(p).map_values(|w: Seq<char>| expand(w, vars)),
    );
    let mut r: Vec<Job> = Vec::new();
    let mut i: usize = 0;
    while i < parts.len()
        invariant
            vars == variables@,
            i <= parts.len(),
            char_lists(parts@) == pieces(command_string@, false),
            expanded == pieces(command_string@, false).map_values(
                |p: Seq<char>| words_of(p).map_values(|w: Seq<char>| expand(w, vars)),
            ),
            r.len() == expanded.take(i as int).filter(|ws: Seq<Seq<char>>| ws.len() > 0).len(),
            forall|j: int|
                0 <= j < r.len() ==> seq![#[trigger] r[j].command@] + r[j].args.deep_view()
                    == expanded.take(i as int).filter(|ws: Seq<Seq<char>>| ws.len() > 0)[j],
        decreases parts.len() - i,
    {
        let words = split_words(parts[i].as_slice());
        proof {
            assert(expanded.take(i + 1).drop_last() =~= expanded.take(i as int));
            reveal(Seq::filter);
            assert(expanded[i as int] == words_of(parts@[i as int]@).map_values(
                |w: Seq<char>| expand(w, vars),
            ));
        }
        if words.len() > 0 {
            let command = expand_word(words[0].as_slice(), variables);
            let mut args: Vec<String> = Vec::new();
            let mut k: usize = 1;
            while k < words.len()
                invariant
                            vars == variables@,
                    1 <= k <= words.len(),
                    args.deep_view() == char_lists(words@).subrange(1, k as int).map_values(
                        |w: Seq<char>| expand(w, vars),
                    ),
                decreases words.len() - k,
            {
                let a = expand_word(words[k].as_slice(), variables);
                let ghost before = args.deep_view();
                args.push(a);
                proof {
                    assert forall|j: int| 0 <= j < before.len() implies #[trigger] args.deep_view()[j]
                        == before[j] by {}
                    assert(before.len() == k - 1);
                    assert(args.deep_view()[k - 1] == a@);
                    assert(a@ == expand(char_lists(words@)[k as int], vars));
                    assert(args.deep_view() =~= char_lists(words@).subrange(1, k + 1).map_values(
                        |w: Seq<char>| expand(w, vars),
                    ));
                }
                k = k + 1;
            }
            let ghost prev = expanded.take(i as int).filter(|ws: Seq<Seq<char>>| ws.len() > 0);
            r.push(Job { command, args });
            proof {
                let ws = expanded[i as int];
                assert(seq![r[prev.len() as int].command@] + r[prev.len() as int].args.deep_view()
                    =~= ws);
                assert(expanded.take(i + 1).filter(|ws: Seq<Seq<char>>| ws.len() > 0) == prev.push(
                    ws,
                ));
            }
        }
        i = i + 1;
    }
    proof {
        assert(expanded.take(i as int) =~= expanded);
    }
    r
}

/// A variable assigned a non-empty value is what `$name` stands for
/// afterwards; once assigned the empty value, `$name` stands for nothing.
pub proof fn law_expand_after_assign(
    vars: Map<Seq<char>, Seq<char>>,
    name: Seq<char>,
    value: Seq<char>,
)
    requires
        name.len() > 0,
    ensures
        expand(seq!['$'] + name, assigned(vars, name, value)) == value,
{
    assert((seq!['$'] + name).drop_first() =~= name);
}

/// Text without a separator of the given kind is one piece.
proof fn lemma_pieces_unbroken(s: Seq<char>, words: bool)
    requires
        forall|i: int| 0 <= i < s.len() ==> !separates(#[trigger] s[i], words),
    ensures
        pieces(s, words) == seq![s],
    decreases s.len(),
{
    if s.len() > 0 {
        lemma_pieces_unbroken(s.drop_last(), words);
        assert(!separates(s[s.len() - 1], words));
        assert(s.drop_last().push(s.last()) =~= s);
        let p = pieces(s.drop_last(), words);
        assert(p.update(p.len() - 1, p.last().push(s.last())) =~= seq![s]);
    } else {
        assert(s =~= Seq::<char>::empty());
    }
}

/// A separator followed by unbroken text adds that text as the last piece.
proof fn lemma_pieces_after_separator(a: Seq<char>, c: char, b: Seq<char>, words: bool)
    requires
        separates(c, words),
        forall|i: int| 0 <= i < b.len() ==> !separates(#[trigger] b[i], words),
    ensures
        pieces(a + seq![c] + b, words) == pieces(a, words).push(b),
    decreases b.len(),
{
    let s = a + seq![c] + b;
    if b.len() == 0 {
        assert(s.drop_last() =~= a);
        assert(s.last() == c);
        assert(b =~= Seq::<char>::empty());
    } else {
        lemma_pieces_after_separator(a, c, b.drop_last(), words);
        assert(s.drop_last() =~= a + seq![c] + b.drop_last());
        assert(s.last() == b.last());
        assert(!separates(b[b.len() - 1], words));
        assert(b.drop_last().push(b.last()) =~= b);
    }
}

/// Whether `w` is a single word that stays in one job: no white space, no
/// `;`, no line break.
pub open spec fn plain_word(w: Seq<char>) -> bool {
    &&& w.len() > 0
    &&& forall|i: int| 0 <= i < w.len() ==> !is_white_space(#[trigger] w[i]) && !is_job_separator(w[i])
}

/// A command line of one word is one job whose command is that word,
/// expanded, and which has no arguments.
pub proof fn law_single_word_job(w: Seq<char>, vars: Map<Seq<char>, Seq<char>>)
    requires
        plain_word(w),
    ensures
        job_words(w, vars) == seq![seq![expand(w, vars)]],
{
    lemma_pieces_unbroken(w, false);
    lemma_pieces_unbroken(w, true);
    reveal_with_fuel(Seq::filter, 2);
    let ws = words_of(w);
    assert(seq![w].drop_last() =~= Seq::<Seq<char>>::empty());
    assert(ws =~= seq![w]);
    let jobs = pieces(w, false).map_values(
        |p: Seq<char>| words_of(p).map_values(|x: Seq<char>| expand(x, vars)),
    );
    assert(ws.map_values(|x: Seq<char>| expand(x, vars)) =~= seq![expand(w, vars)]);
    assert(jobs =~= seq![seq![expand(w, vars)]]);
    assert(jobs.drop_last() =~= Seq::<Seq<Seq<char>>>::empty());
}

/// A command line of two words is one job: the first word, expanded, is
/// its command and the second, expanded, its only argument. The command
/// word is expanded like any other.
pub proof fn law_two_word_job(w: Seq<char>, arg: Seq<char>, vars: Map<Seq<char>, Seq<char>>)
    requires
        plain_word(w),
        plain_word(arg),
    ensures
        job_words(w + seq![' '] + arg, vars) == seq![seq![expand(w, vars), expand(arg, vars)]],
{
    let line = w + seq![' '] + arg;
    assert(is_white_space(' '));
    assert forall|i: int| 0 <= i < line.len() implies !separates(#[trigger] line[i], false) by {
        if i < w.len() {
            assert(line[i] == w[i]);
        } else if i > w.len() {
            assert(line[i] == arg[i - w.len() - 1]);
        }
    }
    lemma_pieces_unbroken(line, false);
    lemma_pieces_unbroken(w, true);
    lemma_pieces_after_separator(w, ' ', arg, true);
    reveal_with_fuel(Seq::filter, 3);
    let ps = pieces(line, true);
    assert(ps =~= seq![w, arg]);
    assert(ps.drop_last() =~= seq![w]);
    assert(seq![w].drop_last() =~= Seq::<Seq<char>>::empty());
    assert(words_of(line) =~= seq![w, arg]);
    let jobs = pieces(line, false).map_values(
        |p: Seq<char>| words_of(p).map_values(|x: Seq<char>| expand(x, vars)),
    );
    assert(words_of(line).map_values(|x: Seq<char>| expand(x, vars)) =~= seq![
        expand(w, vars),
        expand(arg, vars),
    ]);
    assert(jobs =~= seq![seq![expand(w, vars), expand(arg, vars)]]);
    assert(jobs.drop_last() =~= Seq::<Seq<Seq<char>>>::empty());
}

/// `$name arg` runs the value of `name` as its command, with `arg` as its
/// argument: the command word is expanded before the job is formed.
pub proof fn law_command_word_expanded(
    name: Seq<char>,
    arg: Seq<char>,
    vars: Map<Seq<char>, Seq<char>>,
)
    requires
        plain_word(name),
        plain_word(arg),
        arg[0] != '$',
        vars.contains_key(name),
    ensures
        job_words(seq!['$'] + name + seq![' '] + arg, vars) == seq![seq![vars[name], arg]],
{
    let w = seq!['$'] + name;
    assert(!is_white_space('$'));
    assert forall|i: int| 0 <= i < w.len() implies !is_white_space(#[trigger] w[i])
        && !is_job_separator(w[i]) by {
        if i > 0 {
            assert(w[i] == name[i - 1]);
        }
    }
    law_two_word_job(w, arg, vars);
    assert(w.drop_first() =~= name);
}

/// What the shell does with a command line.
pub enum LineAction {
    /// `$` alone lists the variables: print these lines.
    ShowVariables(Vec<String>),
    /// Run these jobs in order.
    Jobs(Vec<Job>),
}

/// The first decision on a command line: `$` lists the variables, anything
/// else is cut into jobs.
pub fn on_command(shell: &Shell, command_string: &str) -> (r: LineAction)
    ensures
        command_string@ == "$"@ ==> (r matches LineAction::ShowVariables(lines) && lines.len()
            == shell.variables@.len() && forall|i: int|
            0 <= i < lines.len() ==> #[trigger] lines[i]@ == variable_line(
                crate::order::ascending(shell.variables@.dom())[i],
                shell.variables@[crate::order::ascending(shell.variables@.dom())[i]],
            )),
        command_string@ != "$"@ ==> (r matches LineAction::Jobs(jobs) && jobs.len() == job_words(
            command_string@,
            shell.variables@,
        ).len() && forall|i: int|
            0 <= i < jobs.len() ==> seq![#[trigger] jobs[i].command@] + jobs[i].args.deep_view()
                == job_words(command_string@, shell.variables@)[i]),
{
    if str_equal(command_string, "$") {
        LineAction::ShowVariables(shell.variables.lines())
    } else {
        LineAction::Jobs(parse_jobs(command_string, &shell.variables))
    }
}

/// A line typed at the prompt, once trimmed.
pub enum Input {
    /// `exit`: leave the shell.
    Exit,
    /// Nothing but white space: do nothing.
    Blank,
    /// A command line to run.
    Command(String),
}

/// What the interactive loop does with a line it has read.
pub fn classify_line(line: &str) -> (r: Input)
    ensures
        trim_seq(line@) == "exit"@ ==> r is Exit,
        trim_seq(line@) != "exit"@ && trim_seq(line@).len() == 0 ==> r is Blank,
        trim_seq(line@) != "exit"@ && trim_seq(line@).len() > 0 ==> (r matches Input::Command(c)
            && c@ == trim_seq(line@)),
{
    let t = trim(line);
    if str_equal(t.as_str(), "exit") {
        Input::Exit
    } else if t.as_str().is_empty() {
        Input::Blank
    } else {
        Input::Command(t)
    }
}

} // verus!
