//! The text that the builtins compute from their arguments and the state of
//! the shell; the program prints it, or hands it to the system.
use crate::order::{char_lists, sort_strings, sorted};
use crate::shell::{mode_values, spaced, Mode};
use crate::text::{chars_of, push_str, string_from, trim, trim_chars, trim_seq};
use crate::to_num::{
    digit_of,
    digits_value,
    is_digit_in,
    leading_number,
    leading_signed_number,
    lemma_digit_run,
    to_num,
    word_range,
};
use vstd::arithmetic::div_mod::{lemma_fundamental_div_mod, lemma_fundamental_div_mod_converse};
use vstd::wrapping::isize_specs::signed_crop;
use crate::variables::{assigned, set_var, Variables};
use vstd::prelude::*;

verus! {

/// The arguments after the command name.
pub open spec fn arguments(args: Seq<Seq<char>>) -> Seq<Seq<char>> {
    if args.len() > 0 {
        args.drop_first()
    } else {
        args
    }
}

/// What `echo` prints: its arguments, each after a space, then trimmed.
pub open spec fn echo_output(args: Seq<Seq<char>>) -> Seq<char> {
    trim_seq(spaced(arguments(args)))
}

/// The line that `echo` prints for `args` (the command name first).
pub fn echo_text(args: &Vec<String>) -> (r: String)
    ensures
        r@ == echo_output(args.deep_view()),
{
    let mut line: Vec<char> = Vec::new();
    if args.len() == 0 {
        return string_from(trim_chars(line.as_slice()).as_slice());
    }
    let mut i: usize = 1;
    proof {
        assert(args.deep_view().subrange(1, 1) =~= Seq::<Seq<char>>::empty());
    }
    while i < args.len()
        invariant
            1 <= i <= args.len(),
            line@ == spaced(args.deep_view().subrange(1, i as int)),
        decreases args.len() - i,
    {
        line.push(' ');
        push_str(&mut line, args[i].as_str());
        proof {
            let t = args.deep_view().subrange(1, i + 1);
            assert(t.drop_last() =~= args.deep_view().subrange(1, i as int));
            assert(line@ =~= spaced(t));
        }
        i = i + 1;
    }
    proof {
        assert(args.deep_view().subrange(1, i as int) =~= arguments(args.deep_view()));
    }
    string_from(trim_chars(line.as_slice()).as_slice())
}

/// The marks of the prompt: `+ ` for a true branch and `- ` for a false
/// one, outermost `if` first.
pub open spec fn mode_marks(modes: Seq<bool>) -> Seq<char>
    decreases modes.len(),
{
    if modes.len() == 0 {
        Seq::empty()
    } else {
        (if modes.last() {
            seq!['+', ' ']
        } else {
            seq!['-', ' ']
        }) + mode_marks(modes.drop_last())
    }
}

/// The prompt: the marks of the modes, then `ion:`, the directory and `# `.
pub open spec fn prompt(modes: Seq<bool>, cwd: Seq<char>) -> Seq<char> {
    mode_marks(modes) + "ion:"@ + cwd + "# "@
}

/// The prompt shown before each command line, for the current directory `cwd`.
pub fn prompt_text(modes: &Vec<Mode>, cwd: &str) -> (r: String)
    ensures
        r@ == prompt(mode_values(modes@), cwd@),
{
    let mut line: Vec<char> = Vec::new();
    let mut i: usize = modes.len();
    let ghost all = mode_values(modes@);
    proof {
        assert(all.take(i as int) =~= all);
        assert(line@ + mode_marks(all.take(i as int)) =~= mode_marks(all));
    }
    while i > 0
        invariant
            i <= modes.len(),
            all == mode_values(modes@),
            mode_marks(all) == line@ + mode_marks(all.take(i as int)),
        decreases i,
    {
        let ghost before = line@;
        if modes[i - 1].value() {
            line.push('+');
        } else {
            line.push('-');
        }
        line.push(' ');
        proof {
            let t = all.take(i as int);
            assert(t.drop_last() =~= all.take(i - 1));
            assert(t.last() == modes@[i - 1]@);
            assert(line@ + mode_marks(all.take(i - 1)) =~= before + mode_marks(t));
        }
        i = i - 1;
    }
    proof {
        assert(all.take(0) =~= Seq::<bool>::empty());
        assert(line@ =~= mode_marks(all));
    }
    push_str(&mut line, "ion:");
    push_str(&mut line, cwd);
    push_str(&mut line, "# ");
    proof {
        assert(line@ =~= prompt(all, cwd@));
    }
    string_from(line.as_slice())
}

/// How `ls` shows an entry: directories get a trailing `/`.
pub open spec fn entry_label(name: Seq<char>, is_dir: bool) -> Seq<char> {
    if is_dir {
        name + seq!['/']
    } else {
        name
    }
}

/// The labels of the entries of a directory, in the order given.
pub open spec fn entry_labels(entries: Seq<(String, bool)>) -> Seq<Seq<char>> {
    entries.map_values(|e: (String, bool)| entry_label(e.0@, e.1))
}

/// The lines of `ls` for the entries of a directory (name, whether it is a
/// directory): the labels of the entries, in ascending order.
pub fn ls_lines(entries: &Vec<(String, bool)>) -> (r: Vec<String>)
    ensures
        sorted(r.deep_view()),
        r.deep_view().to_multiset() == entry_labels(entries@).to_multiset(),
{
    let mut labels: Vec<Vec<char>> = Vec::new();
    let mut i: usize = 0;
    while i < entries.len()
        invariant
            i <= entries.len(),
            char_lists(labels@) == entry_labels(entries@).take(i as int),
        decreases entries.len() - i,
    {
        let mut label = chars_of(entries[i].0.as_str());
        if entries[i].1 {
            label.push('/');
        }
        let ghost before = char_lists(labels@);
        labels.push(label);
        proof {
            assert forall|j: int| 0 <= j < before.len() implies #[trigger] char_lists(labels@)[j]
                == before[j] by {}
            assert(char_lists(labels@)[i as int] == entry_label(entries@[i as int].0@, entries@[i as int].1));
            assert(char_lists(labels@).len() == i + 1);
            assert(char_lists(labels@) =~= entry_labels(entries@).take(i + 1));
        }
        i = i + 1;
    }
    proof {
        assert(entry_labels(entries@).take(i as int) =~= entry_labels(entries@));
    }
    let ordered = sort_strings(&labels);
    let mut r: Vec<String> = Vec::new();
    let mut k: usize = 0;
    while k < ordered.len()
        invariant
            k <= ordered.len(),
            r@.len() == k,
            r.deep_view() == char_lists(ordered@).take(k as int),
        decreases ordered.len() - k,
    {
        let s = string_from(ordered[k].as_slice());
        let ghost before = r.deep_view();
        r.push(s);
        proof {
            assert forall|j: int| 0 <= j < before.len() implies #[trigger] r.deep_view()[j]
                == before[j] by {}
            assert(r.deep_view().len() == k + 1);
            assert(r.deep_view()[k as int] == char_lists(ordered@)[k as int]);
            assert(r.deep_view() =~= char_lists(ordered@).take(k + 1));
        }
        k = k + 1;
    }
    proof {
        assert(char_lists(ordered@).take(k as int) =~= char_lists(ordered@));
    }
    r
}

/// The character of a decimal digit.
pub open spec fn digit_char(d: nat) -> char {
    ((d + 48) as u8) as char
}

/// The decimal digits of a natural number, most significant first.
pub open spec fn decimal_digits(n: nat) -> Seq<char>
    decreases n,
{
    if n < 10 {
        seq![digit_char(n)]
    } else {
        decimal_digits(n / 10) + seq![digit_char(n % 10)]
    }
}

/// The decimal form of an integer, with a `-` for negative numbers.
pub open spec fn decimal(n: int) -> Seq<char> {
    if n < 0 {
        seq!['-'] + decimal_digits((-n) as nat)
    } else {
        decimal_digits(n as nat)
    }
}

/// The decimal form of an exit code, as `format!("{}", code)` writes it.
pub fn status_text(code: i32) -> (r: String)
    ensures
        r@ == decimal(code as int),
{
    let wide: i64 = code as i64;
    let n: u64 = if wide < 0 {
        (-wide) as u64
    } else {
        wide as u64
    };
    let ghost total: nat = n as nat;
    let mut out: Vec<char> = Vec::new();
    out.push(((n % 10) as u8 + 48) as char);
    let mut m: u64 = n / 10;
    proof {
        assert(out@ =~= seq![digit_char(total % 10)]);
    }
    while m > 0
        invariant
            total == n as nat,
            m > 0 ==> decimal_digits(total) == decimal_digits(m as nat) + out@,
            m == 0 ==> decimal_digits(total) == out@,
        decreases m,
    {
        let ghost before = out@;
        out.insert(0, ((m % 10) as u8 + 48) as char);
        proof {
            assert(out@ =~= seq![digit_char((m % 10) as nat)] + before);
            if m >= 10 {
                assert(decimal_digits(m as nat) == decimal_digits((m / 10) as nat) + seq![
                    digit_char((m % 10) as nat),
                ]);
                assert(decimal_digits(total) =~= decimal_digits((m / 10) as nat) + out@);
            } else {
                assert(decimal_digits(m as nat) == seq![digit_char(m as nat)]);
                assert(decimal_digits(total) =~= out@);
            }
        }
        m = m / 10;
    }
    if wide < 0 {
        out.insert(0, '-');
        proof {
            assert(out@ =~= decimal(code as int));
        }
    }
    string_from(out.as_slice())
}

proof fn lemma_decimal_digits(n: nat)
    ensures
        decimal_digits(n).len() >= 1,
        forall|j: int| 0 <= j < decimal_digits(n).len() ==> is_digit_in(#[trigger] decimal_digits(n)[j], 10),
        decimal_digits(n)[0] != '-',
        digits_value(decimal_digits(n), 10) == n,
    decreases n,
{
    let s = decimal_digits(n);
    if n < 10 {
        assert(digit_of(digit_char(n)) == Some(n));
        assert(s.drop_last() =~= Seq::<char>::empty());
        assert(digits_value(s.drop_last(), 10) == 0);
        assert(s.last() == digit_char(n));
    } else {
        lemma_decimal_digits(n / 10);
        let d: nat = (n % 10) as nat;
        assert(digit_of(digit_char(d)) == Some(d));
        let t = decimal_digits(n / 10);
        assert(s == t + seq![digit_char(d)]);
        assert(s.drop_last() =~= t);
        assert forall|j: int| 0 <= j < s.len() implies is_digit_in(#[trigger] s[j], 10) by {
            if j < t.len() {
                assert(s[j] == t[j]);
            }
        }
        assert(s[0] == t[0]);
        assert(s.last() == digit_char(d));
        lemma_fundamental_div_mod(n as int, 10);
        assert(digits_value(s, 10) == digits_value(t, 10) * 10 + d);
    }
}

/// An exit code recorded in `?` reads back as the same number when `if`
/// compares it as a signed number.
pub proof fn law_exit_status_reads_back(code: i32)
    ensures
        signed_crop(leading_signed_number(decimal(code as int), 10)) == code,
{
    let m: int = word_range();
    let n: nat = if code < 0 {
        (-code) as nat
    } else {
        code as nat
    };
    lemma_decimal_digits(n);
    let ds = decimal_digits(n);
    lemma_digit_run(ds, 10, ds.len() as int);
    assert(ds.take(ds.len() as int) =~= ds);
    assert(leading_number(ds, 10) == n);
    if code < 0 {
        let s = decimal(code as int);
        assert(s.drop_first() =~= ds);
        assert(leading_signed_number(s, 10) == code);
        lemma_fundamental_div_mod_converse(code as int, m, -1, code + m);
    } else {
        assert(leading_signed_number(decimal(code as int), 10) == code);
        lemma_fundamental_div_mod_converse(code as int, m, 0, code as int);
    }
}

/// Records the exit code of a command in the variable `?`.
pub fn record_exit_status(variables: &mut Variables, code: i32)
    ensures
        final(variables)@ == assigned(old(variables)@, "?"@, decimal(code as int)),
{
    let text = status_text(code);
    set_var(variables, "?", text.as_str());
}

/// The number of milliseconds `sleep` waits: its first argument read as a
/// number of seconds, times a thousand, in 32 bits.
pub open spec fn sleep_duration(args: Seq<Seq<char>>) -> int {
    let secs: int = if args.len() > 1 {
        leading_number(args[1], 10) as int % word_range()
    } else {
        0
    };
    ((secs % 0x1_0000_0000) * 1000) % 0x1_0000_0000
}

/// How long `sleep` waits, in milliseconds, for `args` (the command name first).
pub fn sleep_millis(args: &Vec<String>) -> (ms: u32)
    ensures
        ms as int == sleep_duration(args.deep_view()),
{
    let secs: usize = if args.len() > 1 {
        to_num(args[1].as_str())
    } else {
        0
    };
    let low: u32 = ((secs as u64) % 0x1_0000_0000u64) as u32;
    low.wrapping_mul(1000)
}

/// What `read` shows before it reads the value of a variable: its trimmed
/// name and `=`.
pub fn read_prompt(arg: &str) -> (r: String)
    ensures
        r@ == trim_seq(arg@) + seq!['='],
{
    let mut line = chars_of(trim(arg).as_str());
    line.push('=');
    string_from(line.as_slice())
}

/// What `read` does with a line it has read for the argument `arg`: the
/// trimmed line becomes the value of the trimmed name.
pub fn read_assign(variables: &mut Variables, arg: &str, line: &str)
    ensures
        final(variables)@ == assigned(old(variables)@, trim_seq(arg@), trim_seq(line@)),
{
    let name = trim(arg);
    let value = trim(line);
    set_var(variables, name.as_str(), value.as_str());
}

} // verus!
