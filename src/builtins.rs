use vstd::prelude::*;

use crate::alias::{resolve_command, resolve_line};
use crate::command::{pipeline_matches, statements, TishCommand};
use crate::env::{expand_line, Environment};
use crate::models::{command_of, internal_of, Command, InternalCommand};
use crate::text::{append_chars, chars_of, is_word, slice_chars, string_from_vec};

verus! {

#[derive(Clone, Copy, Debug, PartialEq, Eq, Structural)]
pub enum BuiltinError {
    /// `tish` was given no subcommand.
    NoCommand,
    /// The subcommand is not the one this builtin handles.
    InvalidCommand,
    /// `kill` was given no process id.
    NoProcessId,
    /// The process id is not a number that fits a pid.
    InvalidProcessId,
    /// `cd` with no argument, and no home directory known.
    NoHomeDirectory,
}

/// Where a command goes: a builtin of the shell, or a `tish` subcommand.
#[derive(Clone, Copy, Debug, PartialEq, Eq, Structural)]
pub enum Dispatch {
    Shell(Command),
    Tish(InternalCommand),
}

/// How an external program is run.
#[derive(Clone, Copy, Debug, PartialEq, Eq, Structural)]
pub enum ExternalPlan {
    /// The program names a directory and automatic `cd` is on.
    ChangeDirectory,
    /// Spawned with detached input and output, recorded in the job table.
    Background,
    /// Spawned in its own process group, holding the terminal until it exits.
    Foreground,
}

pub open spec fn is_digit(c: char) -> bool {
    '0' <= c && c <= '9'
}

pub open spec fn digit_value(c: char) -> nat {
    (c as u32 - '0' as u32) as nat
}

/// The number that a string of decimal digits writes.
pub open spec fn decimal_value(s: Seq<char>) -> nat
    decreases s.len(),
{
    if s.len() == 0 {
        0
    } else {
        10 * decimal_value(s.drop_last()) + digit_value(s.last())
    }
}

pub open spec fn all_digits(s: Seq<char>) -> bool {
    forall|i: int| 0 <= i < s.len() ==> is_digit(#[trigger] s[i])
}

/// The digits of a number written with an optional leading `+`.
pub open spec fn unsigned_digits(s: Seq<char>) -> Seq<char> {
    if s.len() > 0 && s[0] == '+' {
        s.drop_first()
    } else {
        s
    }
}

/// An unsigned decimal number, with an optional leading `+`, no larger than `max`.
pub open spec fn parse_decimal(s: Seq<char>, max: nat) -> Option<nat> {
    let d = unsigned_digits(s);
    if d.len() > 0 && all_digits(d) && decimal_value(d) <= max {
        Some(decimal_value(d))
    } else {
        None
    }
}

proof fn lemma_prefix_value(s: Seq<char>, j: int)
    requires
        all_digits(s),
        0 <= j <= s.len(),
    ensures
        decimal_value(s.take(j)) <= decimal_value(s),
    decreases s.len(),
{
    if j < s.len() {
        let d = s.drop_last();
        assert(d.take(j) =~= s.take(j));
        assert forall|i: int| 0 <= i < d.len() implies is_digit(#[trigger] d[i]) by {
            assert(d[i] == s[i]);
        }
        lemma_prefix_value(d, j);
    } else {
        assert(s.take(j) =~= s);
    }
}

fn parse_decimal_exec(s: &Vec<char>, max: u64) -> (r: Option<u64>)
    ensures
        match parse_decimal(s@, max as nat) {
            Some(v) => r == Some(v as u64),
            None => r is None,
        },
{
    let start: usize = if s.len() > 0 && s[0] == '+' { 1 } else { 0 };
    let ghost d = unsigned_digits(s@);
    assert(d =~= s@.subrange(start as int, s@.len() as int));
    if start >= s.len() {
        return None;
    }
    let mut v: u64 = 0;
    let mut i: usize = start;
    while i < s.len()
        invariant
            start <= i <= s@.len(),
            d == unsigned_digits(s@),
            d =~= s@.subrange(start as int, s@.len() as int),
            all_digits(d.take(i - start)),
            v as nat == decimal_value(d.take(i - start)),
            v <= max,
        decreases s@.len() - i,
    {
        let c = s[i];
        let ghost k = (i - start) as int;
        assert(d[k] == c);
        if !('0' <= c && c <= '9') {
            assert(!is_digit(d[k]));
            return None;
        }
        let digit = (c as u32 - '0' as u32) as u64;
        proof {
            assert(d.take(k + 1).drop_last() =~= d.take(k));
            assert(d.take(k + 1).last() == c);
            assert forall|m: int| 0 <= m < k + 1 implies is_digit(#[trigger] d.take(k + 1)[m]) by {
                if m < k {
                    assert(d.take(k + 1)[m] == d.take(k)[m]);
                }
            }
        }
        if digit > max || v > (max - digit) / 10 {
            proof {
                assert(10 * (v as int) + digit > max) by (nonlinear_arith)
                    requires digit > max || v > (max - digit) / 10, v >= 0;
                if all_digits(d) {
                    lemma_prefix_value(d, k + 1);
                }
            }
            return None;
        }
        proof {
            assert(10 * (v as int) + digit <= max) by (nonlinear_arith)
                requires v <= (max - digit) / 10, digit <= max;
        }
        v = v * 10 + digit;
        i = i + 1;
    }
    assert(d.take(d.len() as int) =~= d);
    Some(v)
}

/// The status of a line of statements, from each statement's outcome in
/// order (`None` for one that reported an error): the status of the last
/// statement that did not succeed, 1 for an error, or 0 when all succeeded.
/// Every statement runs; a failure only sets the status.
pub open spec fn overall_status(outcomes: Seq<Option<u8>>) -> u8
    decreases outcomes.len(),
{
    if outcomes.len() == 0 {
        0
    } else {
        match outcomes.last() {
            None => 1,
            Some(c) => if c != 0 { c } else { overall_status(outcomes.drop_last()) },
        }
    }
}

pub fn line_status(outcomes: &Vec<Option<u8>>) -> (r: u8)
    ensures
        r == overall_status(outcomes@),
{
    let mut status: u8 = 0;
    let mut i: usize = 0;
    while i < outcomes.len()
        invariant
            i <= outcomes@.len(),
            status == overall_status(outcomes@.take(i as int)),
        decreases outcomes@.len() - i,
    {
        assert(outcomes@.take(i + 1).drop_last() =~= outcomes@.take(i as int));
        match outcomes[i] {
            None => {
                status = 1;
            },
            Some(c) => {
                if c != 0 {
                    status = c;
                }
            },
        }
        i = i + 1;
    }
    assert(outcomes@.take(outcomes@.len() as int) =~= outcomes@);
    status
}

/// The exit status a shell reports for a child's exit code: the code modulo
/// 256, and 0 when the child gave none (it was ended by a signal).
pub fn exit_code_of(code: Option<i32>) -> (r: u8)
    ensures
        code is None ==> r == 0,
        code matches Some(c) ==> r as int == (c as int) % 256,
{
    match code {
        None => 0,
        Some(c) => {
            if c >= 0 {
                (c % 256) as u8
            } else {
                let n: i64 = -(c as i64);
                let m: i64 = n % 256;
                proof {
                    assert((c as int) % 256 == if m == 0 { 0 } else { 256 - m }) by (nonlinear_arith)
                        requires n == -(c as int), m == n % 256, n > 0;
                }
                if m == 0 {
                    0
                } else {
                    (256 - m) as u8
                }
            }
        },
    }
}

/// The arguments of a builtin: those after its subcommand when the line starts with `tish`.
pub open spec fn builtin_args(c: TishCommand) -> Seq<Seq<char>> {
    if c.program@ == "tish"@ && c.arg_words().len() > 0 {
        c.arg_words().drop_first()
    } else {
        c.arg_words()
    }
}

pub open spec fn kill_target_of(args: Seq<Seq<char>>) -> Result<u32, BuiltinError> {
    if args.len() == 0 {
        Err(BuiltinError::NoCommand)
    } else if args[0] != "kill"@ {
        Err(BuiltinError::InvalidCommand)
    } else if args.len() < 2 {
        Err(BuiltinError::NoProcessId)
    } else {
        match parse_decimal(args[1], u32::MAX as nat) {
            Some(v) => Ok(v as u32),
            None => Err(BuiltinError::InvalidProcessId),
        }
    }
}

/// `program` with a leading `~/` replaced by the home directory, when one is known.
pub open spec fn program_path(program: Seq<char>, home: Option<Seq<char>>) -> Seq<char> {
    if program.len() >= 2 && program[0] == '~' && program[1] == '/' && home is Some {
        let h = home->0;
        let rest = program.subrange(2, program.len() as int);
        if h.len() > 0 && h.last() == '/' {
            h + rest
        } else {
            h + seq!['/'] + rest
        }
    } else {
        program
    }
}

impl TishCommand {
    /// Which builtin, `tish` subcommand or external program this command runs.
    pub fn dispatch(&self) -> (r: Dispatch)
        ensures
            self.program@ == "tish"@ && self.args@.len() != 0 ==> r == Dispatch::Tish(
                internal_of(self.program@, self.args@.map_values(|a: String| a@))),
            !(self.program@ == "tish"@ && self.args@.len() != 0) ==> r == Dispatch::Shell(
                command_of(self.program@, self.args@.map_values(|a: String| a@))),
    {
        let p = chars_of(self.program.as_str());
        if is_word(&p, "tish") && self.args.len() != 0 {
            Dispatch::Tish(InternalCommand::from_str(self.program.as_str(), self.args.as_slice()))
        } else {
            Dispatch::Shell(Command::from_str(self.program.as_str(), self.args.as_slice()))
        }
    }

    /// The job id that `fg` names, if its first argument is a number.
    pub fn fg_job_id(&self) -> (r: Option<usize>)
        ensures
            builtin_args(*self).len() == 0 ==> r is None,
            builtin_args(*self).len() > 0 ==> match parse_decimal(builtin_args(*self)[0], usize::MAX as nat) {
                Some(v) => r == Some(v as usize),
                None => r is None,
            },
    {
        let p = chars_of(self.program.as_str());
        let skip: usize = if is_word(&p, "tish") && self.args.len() > 0 { 1 } else { 0 };
        proof {
            let a = self.arg_words();
            if skip == 1 && a.len() > 1 {
                assert(a.drop_first()[0] == a[1]);
            }
        }
        if self.args.len() <= skip {
            return None;
        }
        let digits = chars_of(self.args[skip].as_str());
        match parse_decimal_exec(&digits, usize::MAX as u64) {
            Some(v) => Some(v as usize),
            None => None,
        }
    }

    /// The pid that `tish kill <pid>` names.
    pub fn kill_target(&self) -> (r: Result<u32, BuiltinError>)
        ensures
            r == kill_target_of(self.arg_words()),
    {
        if self.args.len() == 0 {
            return Err(BuiltinError::NoCommand);
        }
        if !is_word(&chars_of(self.args[0].as_str()), "kill") {
            return Err(BuiltinError::InvalidCommand);
        }
        if self.args.len() < 2 {
            return Err(BuiltinError::NoProcessId);
        }
        match parse_decimal_exec(&chars_of(self.args[1].as_str()), u32::MAX as u64) {
            Some(v) => Ok(v as u32),
            None => Err(BuiltinError::InvalidProcessId),
        }
    }

    /// The directory `cd` changes to: its argument, or the home directory.
    pub fn cd_target(&self, home: Option<String>) -> (r: Result<String, BuiltinError>)
        ensures
            self.args@.len() > 0 ==> (r matches Ok(d) && d@ == self.args@[0]@),
            self.args@.len() == 0 && home is None ==> r == Err::<String, BuiltinError>(BuiltinError::NoHomeDirectory),
            self.args@.len() == 0 && home is Some ==> r == Ok::<String, BuiltinError>(home->0),
    {
        if self.args.len() > 0 {
            return Ok(self.args[0].clone());
        }
        match home {
            Some(h) => Ok(h),
            None => Err(BuiltinError::NoHomeDirectory),
        }
    }

    /// The path an external program is looked up at: a leading `~/` goes to the home directory.
    pub fn program_path(&self, home: &Option<String>) -> (r: String)
        ensures
            r@ == program_path(self.program@, crate::env::opt_string_view(*home)),
    {
        let p = chars_of(self.program.as_str());
        match home {
            Some(h) => {
                if p.len() >= 2 && p[0] == '~' && p[1] == '/' {
                    let mut r = chars_of(h.as_str());
                    if !(r.len() > 0 && r[r.len() - 1] == '/') {
                        r.push('/');
                    }
                    let rest = slice_chars(&p, 2, p.len());
                    append_chars(&mut r, &rest);
                    proof {
                        if h@.len() > 0 && h@.last() == '/' {
                            assert(r@ =~= h@ + p@.subrange(2, p@.len() as int));
                        } else {
                            assert(r@ =~= h@ + seq!['/'] + p@.subrange(2, p@.len() as int));
                        }
                    }
                    return string_from_vec(&r);
                }
                string_from_vec(&p)
            },
            None => string_from_vec(&p),
        }
    }

    /// How an external program runs: as a directory change when automatic
    /// `cd` is on and its path is a directory, else in the background or the
    /// foreground as the command asks.
    pub fn external_plan(&self, auto_cd: bool, path_is_dir: bool) -> (r: ExternalPlan)
        ensures
            auto_cd && path_is_dir ==> r == ExternalPlan::ChangeDirectory,
            !(auto_cd && path_is_dir) && self.background ==> r == ExternalPlan::Background,
            !(auto_cd && path_is_dir) && !self.background ==> r == ExternalPlan::Foreground,
    {
        if auto_cd && path_is_dir {
            ExternalPlan::ChangeDirectory
        } else if self.background {
            ExternalPlan::Background
        } else {
            ExternalPlan::Foreground
        }
    }

    /// The program name resolved through the alias table and parsed again.
    pub fn resolve_command(&self, aliases: &Vec<(String, String)>, env: &Environment) -> (r: Vec<TishCommand>)
        ensures
            r@.len() == statements(resolve_line(aliases@, self.program@)).len(),
            forall|i: int| 0 <= i < r@.len() ==> pipeline_matches(#[trigger] r@[i],
                expand_line(env, statements(resolve_line(aliases@, self.program@))[i])),
    {
        let line = resolve_command(self.program.clone(), aliases);
        TishCommand::parse(line.as_str(), env)
    }

    /// The program and arguments a foreground job runs: those of the first
    /// resolved command followed by this command's own arguments, or this
    /// command's own when resolution gave nothing.
    pub fn argv_for(&self, resolved: &Vec<TishCommand>) -> (r: (String, Vec<String>))
        ensures
            resolved@.len() == 0 ==> r.0@ == self.program@ && r.1.deep_view() == self.args.deep_view(),
            resolved@.len() > 0 ==> r.0@ == resolved@[0].program@
                && r.1.deep_view() == resolved@[0].args.deep_view() + self.args.deep_view(),
    {
        if resolved.len() == 0 {
            return (self.program.clone(), self.args.clone());
        }
        let first = &resolved[0];
        let mut args: Vec<String> = Vec::new();
        let mut i: usize = 0;
        while i < first.args.len()
            invariant
                i <= first.args@.len(),
                args.deep_view() == first.args.deep_view().take(i as int),
            decreases first.args@.len() - i,
        {
            let ghost prev = args.deep_view();
            args.push(first.args[i].clone());
            assert(args.deep_view() =~= prev.push(first.args@[i as int]@));
            assert(first.args.deep_view().take(i + 1) =~= first.args.deep_view().take(i as int).push(first.args@[i as int]@));
            i = i + 1;
        }
        let mut j: usize = 0;
        assert(first.args.deep_view().take(i as int) =~= first.args.deep_view());
        while j < self.args.len()
            invariant
                j <= self.args@.len(),
                args.deep_view() == first.args.deep_view() + self.args.deep_view().take(j as int),
            decreases self.args@.len() - j,
        {
            let ghost prev = args.deep_view();
            args.push(self.args[j].clone());
            assert(args.deep_view() =~= prev.push(self.args@[j as int]@));
            assert(first.args.deep_view() + self.args.deep_view().take(j + 1) =~= (first.args.deep_view() + self.args.deep_view().take(j as int)).push(self.args@[j as int]@));
            j = j + 1;
        }
        assert(self.args.deep_view().take(j as int) =~= self.args.deep_view());
        (first.program.clone(), args)
    }
}

} // verus!
