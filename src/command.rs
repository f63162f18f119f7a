use vstd::prelude::*;

use crate::env::{expand_line, EnvManager, Environment};
use crate::text::{chars_of, is_space, is_space_char, same_chars, slice_chars, string_from_vec};
use crate::tokenizer::{
    has_redirect_word, is_and_op, is_quote, is_redirect_op, skip_space, stops_at, words_of,
    Tokenizer,
};

verus! {

pub open spec fn views(v: Seq<Vec<char>>) -> Seq<Seq<char>> {
    v.map_values(|x: Vec<char>| x@)
}

/// End of `s` once trailing whitespace before position `j` is cut off.
pub open spec fn trim_end_at(s: Seq<char>, j: int) -> int
    decreases j,
{
    if j <= 0 {
        0
    } else if is_space(s[j - 1]) {
        trim_end_at(s, j - 1)
    } else {
        j
    }
}

/// `s` without leading and trailing whitespace.
pub open spec fn trim(s: Seq<char>) -> Seq<char> {
    let a = skip_space(s, 0);
    let b = trim_end_at(s, s.len() as int);
    if a < b {
        s.subrange(a, b)
    } else {
        Seq::empty()
    }
}

/// The pieces, trimmed, that are not blank, in order.
pub open spec fn nonblank_trimmed(ps: Seq<Seq<char>>) -> Seq<Seq<char>>
    decreases ps.len(),
{
    if ps.len() == 0 {
        Seq::empty()
    } else {
        let r = nonblank_trimmed(ps.drop_last());
        let t = trim(ps.last());
        if t.len() > 0 {
            r.push(t)
        } else {
            r
        }
    }
}

/// Position of the next `&&` at or after `i`, or the length of `t`.
pub open spec fn and_end(t: Seq<char>, i: int) -> int
    decreases t.len() - i,
{
    if i + 1 >= t.len() {
        t.len() as int
    } else if t[i] == '&' && t[i + 1] == '&' {
        i
    } else {
        and_end(t, i + 1)
    }
}

/// The text from `i` on, cut at each `&&`.
pub open spec fn and_pieces_from(t: Seq<char>, i: int) -> Seq<Seq<char>>
    decreases t.len() - i,
    via and_pieces_decreases
{
    let e = and_end(t, i);
    if e >= t.len() || i > t.len() {
        seq![t.subrange(i, t.len() as int)]
    } else {
        seq![t.subrange(i, e)] + and_pieces_from(t, e + 2)
    }
}

#[via_fn]
proof fn and_pieces_decreases(t: Seq<char>, i: int) {
    lemma_and_end(t, i);
}

proof fn lemma_and_end(t: Seq<char>, i: int)
    ensures
        and_end(t, i) >= i || and_end(t, i) == t.len(),
        and_end(t, i) < t.len() ==> and_end(t, i) + 1 < t.len() && and_end(t, i) >= i,
        and_end(t, i) <= t.len(),
    decreases t.len() - i,
{
    if i + 1 < t.len() {
        lemma_and_end(t, i + 1);
    }
}

/// The statements of a line: its pieces between `&&` separators, trimmed, blank ones left out.
pub open spec fn statements(line: Seq<char>) -> Seq<Seq<char>> {
    nonblank_trimmed(and_pieces_from(line, 0))
}

/// Position of the next `|` outside quotes at or after `i`, or the length of `t`.
pub open spec fn pipe_end(t: Seq<char>, i: int, quoted: bool) -> int
    decreases t.len() - i,
{
    if i >= t.len() {
        t.len() as int
    } else if is_quote(t[i]) {
        pipe_end(t, i + 1, !quoted)
    } else if t[i] == '|' && !quoted {
        i
    } else {
        pipe_end(t, i + 1, quoted)
    }
}

/// The text from `i` on, cut at each `|` outside quotes.
pub open spec fn pipe_pieces_from(t: Seq<char>, i: int) -> Seq<Seq<char>>
    decreases t.len() - i,
    via pipe_pieces_decreases
{
    let e = pipe_end(t, i, false);
    if e >= t.len() || i > t.len() {
        seq![t.subrange(i, t.len() as int)]
    } else {
        seq![t.subrange(i, e)] + pipe_pieces_from(t, e + 1)
    }
}

#[via_fn]
proof fn pipe_pieces_decreases(t: Seq<char>, i: int) {
    lemma_pipe_end(t, i, false);
}

proof fn lemma_pipe_end(t: Seq<char>, i: int, quoted: bool)
    ensures
        i <= t.len() ==> i <= pipe_end(t, i, quoted) <= t.len(),
        i > t.len() ==> pipe_end(t, i, quoted) == t.len(),
        pipe_end(t, i, quoted) < t.len() ==> t[pipe_end(t, i, quoted)] == '|',
    decreases t.len() - i,
{
    if i < t.len() {
        lemma_pipe_end(t, i + 1, !quoted);
        lemma_pipe_end(t, i + 1, quoted);
    }
}

/// The number of `|` characters outside quotes from `i` on.
pub open spec fn count_pipes(t: Seq<char>, i: int, quoted: bool) -> nat
    decreases t.len() - i,
{
    if i >= t.len() {
        0
    } else if is_quote(t[i]) {
        count_pipes(t, i + 1, !quoted)
    } else if t[i] == '|' && !quoted {
        1 + count_pipes(t, i + 1, quoted)
    } else {
        count_pipes(t, i + 1, quoted)
    }
}

/// The stage texts of a statement: its pieces between unquoted `|`, trimmed, blank ones left out.
pub open spec fn stage_texts(s: Seq<char>) -> Seq<Seq<char>> {
    nonblank_trimmed(pipe_pieces_from(s, 0))
}

/// Index of the first word that `f` holds of, or the number of words.
pub open spec fn first_where(ws: Seq<Seq<char>>, f: spec_fn(Seq<char>) -> bool) -> int
    decreases ws.len(),
{
    if ws.len() == 0 {
        0
    } else if f(ws[0]) {
        0
    } else {
        1 + first_where(ws.drop_first(), f)
    }
}

/// The redirections that the words `r` set, on top of `rin` and `rout`; a later one wins.
pub open spec fn scan_redirects(
    r: Seq<Seq<char>>,
    rin: Option<Seq<char>>,
    rout: Option<(Seq<char>, bool)>,
) -> (Option<Seq<char>>, Option<(Seq<char>, bool)>)
    decreases r.len(),
{
    if r.len() <= 1 {
        (rin, rout)
    } else if r[0] == seq!['<'] {
        scan_redirects(r.skip(2), Some(r[1]), rout)
    } else if r[0] == seq!['>'] {
        scan_redirects(r.skip(2), rin, Some((r[1], false)))
    } else if r[0] == seq!['>', '>'] {
        scan_redirects(r.skip(2), rin, Some((r[1], true)))
    } else {
        scan_redirects(r.drop_first(), rin, rout)
    }
}

/// Number of leading words of a stage that name the program and its arguments.
pub open spec fn stage_word_count(ws: Seq<Seq<char>>) -> int {
    if has_redirect_word(ws) {
        first_where(ws, |w: Seq<char>| is_redirect_op(w))
    } else {
        first_where(ws, |w: Seq<char>| is_and_op(w))
    }
}

pub open spec fn stage_program(ws: Seq<Seq<char>>) -> Seq<char> {
    if stage_word_count(ws) == 0 {
        Seq::empty()
    } else {
        ws[0]
    }
}

/// The words after the program, trailing `&` included.
pub open spec fn stage_raw_args(ws: Seq<Seq<char>>) -> Seq<Seq<char>> {
    ws.subrange(1, stage_word_count(ws))
}

pub open spec fn stage_background(ws: Seq<Seq<char>>) -> bool {
    let a = stage_raw_args(ws);
    stage_word_count(ws) > 0 && a.len() > 0 && a.last() == seq!['&']
}

pub open spec fn stage_args(ws: Seq<Seq<char>>) -> Seq<Seq<char>> {
    if stage_word_count(ws) == 0 {
        Seq::empty()
    } else if stage_background(ws) {
        stage_raw_args(ws).drop_last()
    } else {
        stage_raw_args(ws)
    }
}

pub open spec fn stage_redirects(ws: Seq<Seq<char>>) -> (Option<Seq<char>>, Option<(Seq<char>, bool)>) {
    if stage_word_count(ws) > 0 && has_redirect_word(ws) {
        scan_redirects(ws.skip(stage_word_count(ws)), None, None)
    } else {
        (None, None)
    }
}

proof fn lemma_first_where(ws: Seq<Seq<char>>, n: int, f: spec_fn(Seq<char>) -> bool)
    requires
        stops_at(ws, n, f),
    ensures
        first_where(ws, f) == n,
    decreases ws.len(),
{
    if ws.len() > 0 && n > 0 {
        assert(!f(ws[0]));
        let d = ws.drop_first();
        assert forall|j: int| 0 <= j < n - 1 implies !f(#[trigger] d[j]) by {
            assert(d[j] == ws[j + 1]);
        }
        if n - 1 < d.len() {
            assert(d[n - 1] == ws[n]);
        }
        lemma_first_where(d, n - 1, f);
    }
}

pub open spec fn opt_view(o: Option<String>) -> Option<Seq<char>> {
    match o {
        Some(s) => Some(s@),
        None => None,
    }
}

pub open spec fn out_view(o: Option<(String, bool)>) -> Option<(Seq<char>, bool)> {
    match o {
        Some(p) => Some((p.0@, p.1)),
        None => None,
    }
}

/// One stage of a pipeline: the program, its arguments and redirections,
/// and the next stage that its output feeds.
pub struct TishCommand {
    pub args: Vec<String>,
    pub background: bool,
    pub program: String,
    pub pipe_to: Option<Box<TishCommand>>,
    pub redirect_in: Option<String>,
    pub redirect_out: Option<(String, bool)>,
}

/// The stages of a pipeline, first to last.
pub open spec fn chain(c: TishCommand) -> Seq<TishCommand>
    decreases c,
{
    match c.pipe_to {
        Some(b) => seq![c] + chain(*b),
        None => seq![c],
    }
}

/// `c` holds the program, arguments and redirections that the stage text `p` gives.
pub open spec fn stage_matches_words(c: TishCommand, ws: Seq<Seq<char>>) -> bool {
    &&& c.program@ == stage_program(ws)
    &&& c.arg_words() == stage_args(ws)
    &&& opt_view(c.redirect_in) == stage_redirects(ws).0
    &&& out_view(c.redirect_out) == stage_redirects(ws).1
}

pub open spec fn stage_matches(c: TishCommand, p: Seq<char>) -> bool {
    stage_matches_words(c, words_of(p))
}

/// `c` is a stage parsed from `p`. Only the last stage of a pipeline keeps
/// an output redirection: a stage that feeds the next one writes to it.
pub open spec fn stage_fits(c: TishCommand, p: Seq<char>, last: bool) -> bool {
    let ws = words_of(p);
    &&& c.program@ == stage_program(ws)
    &&& c.arg_words() == stage_args(ws)
    &&& opt_view(c.redirect_in) == stage_redirects(ws).0
    &&& if last {
        out_view(c.redirect_out) == stage_redirects(ws).1
    } else {
        c.redirect_out is None
    }
}

pub open spec fn is_blank_command(c: TishCommand) -> bool {
    &&& c.program@ == Seq::<char>::empty()
    &&& c.arg_words() == Seq::<Seq<char>>::empty()
    &&& !c.in_background()
    &&& c.pipe_to is None
    &&& c.redirect_in is None
    &&& c.redirect_out is None
}

/// `c` is the pipeline that the statement `s` describes: one stage per stage
/// text, the background flag on the first stage taken from the last stage's
/// trailing `&`, an output redirection kept on the last stage only; a
/// statement with no stage text gives a blank command.
pub open spec fn pipeline_matches(c: TishCommand, s: Seq<char>) -> bool {
    let ps = stage_texts(s);
    let cs = chain(c);
    if ps.len() == 0 {
        is_blank_command(c)
    } else {
        &&& cs.len() == ps.len()
        &&& forall|i: int| 0 <= i < cs.len() ==> stage_fits(#[trigger] cs[i], ps[i], i == cs.len() - 1)
        &&& c.in_background() == stage_background(words_of(ps.last()))
        &&& forall|i: int| 1 <= i < cs.len() ==> !(#[trigger] cs[i]).in_background()
    }
}

fn trim_chars(s: &Vec<char>) -> (r: Vec<char>)
    ensures
        r@ == trim(s@),
{
    let mut a: usize = 0;
    while a < s.len() && is_space_char(s[a])
        invariant
            a <= s@.len(),
            skip_space(s@, a as int) == skip_space(s@, 0),
        decreases s@.len() - a,
    {
        a = a + 1;
    }
    let mut b: usize = s.len();
    while b > 0 && is_space_char(s[b - 1])
        invariant
            b <= s@.len(),
            trim_end_at(s@, b as int) == trim_end_at(s@, s@.len() as int),
        decreases b,
    {
        b = b - 1;
    }
    if a < b {
        slice_chars(s, a, b)
    } else {
        Vec::new()
    }
}

fn nonblank_trimmed_exec(ps: &Vec<Vec<char>>) -> (r: Vec<Vec<char>>)
    ensures
        views(r@) == nonblank_trimmed(views(ps@)),
{
    let mut r: Vec<Vec<char>> = Vec::new();
    let mut i: usize = 0;
    while i < ps.len()
        invariant
            i <= ps@.len(),
            views(r@) == nonblank_trimmed(views(ps@).take(i as int)),
        decreases ps@.len() - i,
    {
        let t = trim_chars(&ps[i]);
        proof {
            let v = views(ps@);
            assert(v.take(i + 1).drop_last() =~= v.take(i as int));
            assert(v.take(i + 1).last() == ps@[i as int]@);
        }
        if t.len() > 0 {
            r.push(t);
            proof {
                assert(views(r@) =~= nonblank_trimmed(views(ps@).take(i as int)).push(t@));
            }
        }
        i = i + 1;
    }
    proof {
        assert(views(ps@).take(ps@.len() as int) =~= views(ps@));
    }
    r
}

fn and_pieces(t: &Vec<char>) -> (r: Vec<Vec<char>>)
    ensures
        views(r@) == and_pieces_from(t@, 0),
{
    let mut r: Vec<Vec<char>> = Vec::new();
    let mut i: usize = 0;
    loop
        invariant
            i <= t@.len(),
            views(r@) + and_pieces_from(t@, i as int) == and_pieces_from(t@, 0),
        decreases t@.len() - i,
    {
        let mut e: usize = i;
        while e < t.len() && e + 1 < t.len() && !(t[e] == '&' && t[e + 1] == '&')
            invariant
                i <= e <= t@.len(),
                and_end(t@, e as int) == and_end(t@, i as int),
            decreases t@.len() - e,
        {
            e = e + 1;
        }
        if e >= t.len() || e + 1 >= t.len() {
            let x = slice_chars(t, i, t.len());
            let ghost before = views(r@);
            r.push(x);
            proof {
                assert(views(r@) =~= before.push(x@));
                assert(views(r@) =~= before + and_pieces_from(t@, i as int));
            }
            return r;
        }
        proof {
            lemma_and_end(t@, i as int);
        }
        let x = slice_chars(t, i, e);
        let ghost before = views(r@);
        r.push(x);
        proof {
            assert(views(r@) =~= before.push(x@));
            assert(and_pieces_from(t@, i as int) == seq![x@] + and_pieces_from(t@, e + 2));
            assert(views(r@) + and_pieces_from(t@, e + 2) =~= before + and_pieces_from(t@, i as int));
        }
        i = e + 2;
    }
}

fn pipe_pieces(t: &Vec<char>) -> (r: Vec<Vec<char>>)
    ensures
        views(r@) == pipe_pieces_from(t@, 0),
{
    let mut r: Vec<Vec<char>> = Vec::new();
    let mut i: usize = 0;
    loop
        invariant
            i <= t@.len(),
            views(r@) + pipe_pieces_from(t@, i as int) == pipe_pieces_from(t@, 0),
        decreases t@.len() - i,
    {
        let mut e: usize = i;
        let mut quoted = false;
        while e < t.len() && !(t[e] == '|' && !quoted)
            invariant
                i <= e <= t@.len(),
                pipe_end(t@, e as int, quoted) == pipe_end(t@, i as int, false),
            decreases t@.len() - e,
        {
            if t[e] == '"' || t[e] == '\'' {
                quoted = !quoted;
            }
            e = e + 1;
        }
        if e >= t.len() {
            let x = slice_chars(t, i, t.len());
            let ghost before = views(r@);
            r.push(x);
            proof {
                assert(views(r@) =~= before.push(x@));
                assert(views(r@) =~= before + pipe_pieces_from(t@, i as int));
            }
            return r;
        }
        let x = slice_chars(t, i, e);
        let ghost before = views(r@);
        r.push(x);
        proof {
            assert(views(r@) =~= before.push(x@));
            assert(pipe_pieces_from(t@, i as int) == seq![x@] + pipe_pieces_from(t@, e + 1));
            assert(views(r@) + pipe_pieces_from(t@, e + 1) =~= before + pipe_pieces_from(t@, i as int));
        }
        i = e + 1;
    }
}

proof fn lemma_count_to_end(t: Seq<char>, i: int, quoted: bool)
    requires
        0 <= i,
    ensures
        pipe_end(t, i, quoted) < t.len() ==> count_pipes(t, i, quoted) == count_pipes(t, pipe_end(t, i, quoted), false),
        pipe_end(t, i, quoted) >= t.len() ==> count_pipes(t, i, quoted) == 0,
    decreases t.len() - i,
{
    if i < t.len() {
        if is_quote(t[i]) {
            lemma_count_to_end(t, i + 1, !quoted);
        } else if !(t[i] == '|' && !quoted) {
            lemma_count_to_end(t, i + 1, quoted);
        }
    }
}

proof fn lemma_pieces_count(t: Seq<char>, i: int)
    requires
        0 <= i <= t.len(),
    ensures
        pipe_pieces_from(t, i).len() == count_pipes(t, i, false) + 1,
    decreases t.len() - i,
{
    lemma_pipe_end(t, i, false);
    lemma_count_to_end(t, i, false);
    let e = pipe_end(t, i, false);
    if e < t.len() {
        assert(count_pipes(t, e, false) == 1 + count_pipes(t, e + 1, false));
        lemma_pieces_count(t, e + 1);
    }
}

proof fn lemma_nonblank_len(ps: Seq<Seq<char>>)
    requires
        forall|i: int| 0 <= i < ps.len() ==> trim(#[trigger] ps[i]).len() > 0,
    ensures
        nonblank_trimmed(ps).len() == ps.len(),
    decreases ps.len(),
{
    if ps.len() > 0 {
        let d = ps.drop_last();
        assert forall|i: int| 0 <= i < d.len() implies trim(#[trigger] d[i]).len() > 0 by {
            assert(d[i] == ps[i]);
        }
        lemma_nonblank_len(d);
        assert(trim(ps[ps.len() - 1]).len() > 0);
    }
}

/// Without a `&&` word, every word of a stage names the program or an argument.
pub proof fn lemma_first_where_none(ws: Seq<Seq<char>>)
    requires
        forall|i: int| 0 <= i < ws.len() ==> !is_and_op(#[trigger] ws[i]),
    ensures
        first_where(ws, |w: Seq<char>| is_and_op(w)) == ws.len(),
{
    lemma_first_where(ws, ws.len() as int, |w: Seq<char>| is_and_op(w));
}

/// A statement whose pieces between unquoted `|` characters are none of them
/// blank parses into one stage per piece: one more than its unquoted `|` characters.
pub proof fn lemma_stage_count(c: TishCommand, s: Seq<char>)
    requires
        pipeline_matches(c, s),
        forall|i: int| 0 <= i < pipe_pieces_from(s, 0).len() ==> trim(#[trigger] pipe_pieces_from(s, 0)[i]).len() > 0,
    ensures
        chain(c).len() == count_pipes(s, 0, false) + 1,
{
    lemma_pieces_count(s, 0);
    lemma_nonblank_len(pipe_pieces_from(s, 0));
}

/// When the last stage of a statement ends in an unquoted `&` word and holds
/// no redirection or `&&` word, the whole pipeline runs in the background and
/// that `&` is not among the last stage's arguments.
pub proof fn lemma_trailing_ampersand(c: TishCommand, s: Seq<char>)
    requires
        pipeline_matches(c, s),
        stage_texts(s).len() > 0,
        words_of(stage_texts(s).last()).len() >= 2,
        words_of(stage_texts(s).last()).last() == seq!['&'],
        forall|j: int| 0 <= j < words_of(stage_texts(s).last()).len()
            ==> !is_redirect_op(#[trigger] words_of(stage_texts(s).last())[j])
                && !is_and_op(words_of(stage_texts(s).last())[j]),
    ensures
        c.in_background(),
        chain(c).last().arg_words() == words_of(stage_texts(s).last()).subrange(1, words_of(stage_texts(s).last()).len() - 1),
{
    let ps = stage_texts(s);
    let ws = words_of(ps.last());
    assert(!has_redirect_word(ws));
    lemma_first_where(ws, ws.len() as int, |w: Seq<char>| is_and_op(w));
    assert(stage_raw_args(ws) =~= ws.subrange(1, ws.len() as int));
    assert(stage_raw_args(ws).last() == ws.last());
    assert(stage_args(ws) =~= ws.subrange(1, ws.len() - 1));
    let cs = chain(c);
    assert(cs.last() == cs[cs.len() - 1]);
    assert(stage_fits(cs[cs.len() - 1], ps[ps.len() - 1], true));
}

fn word_is(w: &String, lit: &Vec<char>) -> (r: bool)
    ensures
        r == (w@ == lit@),
{
    same_chars(&chars_of(w.as_str()), lit)
}

impl TishCommand {
    /// The arguments after the program, in order.
    pub open spec fn arg_words(&self) -> Seq<Seq<char>> {
        self.args.deep_view()
    }

    /// Whether the pipeline that starts here runs in the background.
    pub open spec fn in_background(&self) -> bool {
        self.background
    }

    pub fn args(&self) -> (r: &Vec<String>)
        ensures
            r.deep_view() == self.arg_words(),
    {
        &self.args
    }

    pub fn is_background(&self) -> (r: bool)
        ensures
            r == self.in_background(),
    {
        self.background
    }

    fn blank() -> (r: Self)
        ensures
            is_blank_command(r),
    {
        let r = TishCommand {
            program: String::new(),
            args: Vec::new(),
            background: false,
            pipe_to: None,
            redirect_in: None,
            redirect_out: None,
        };
        assert(r.args.deep_view() =~= Seq::<Seq<char>>::empty());
        assert(r.program@ =~= Seq::<char>::empty());
        r
    }

    /// Splits a line into statements at each `&&`, expands each statement
    /// against `env`, and parses it into a pipeline. Every statement is kept:
    /// a later one does not depend on how an earlier one ends.
    pub fn parse(input: &str, env: &Environment) -> (r: Vec<Self>)
        ensures
            r@.len() == statements(input@).len(),
            forall|i: int| 0 <= i < r@.len() ==> pipeline_matches(#[trigger] r@[i], expand_line(env, statements(input@)[i])),
    {
        let t = chars_of(input);
        let pieces = and_pieces(&t);
        let ss = nonblank_trimmed_exec(&pieces);
        let ghost sts = statements(input@);
        assert(views(ss@) == sts);
        let mut r: Vec<Self> = Vec::new();
        let mut i: usize = 0;
        while i < ss.len()
            invariant
                i <= ss@.len(),
                views(ss@) == sts,
                r@.len() == i,
                forall|k: int| 0 <= k < i ==> pipeline_matches(#[trigger] r@[k], expand_line(env, sts[k])),
            decreases ss@.len() - i,
        {
            let stmt = string_from_vec(&ss[i]);
            let manager = EnvManager::new(stmt.as_str());
            let expanded = manager.expand(env);
            let c = Self::parse_pipeline(expanded.as_str());
            proof {
                assert(sts[i as int] == ss@[i as int]@);
            }
            r.push(c);
            i = i + 1;
        }
        r
    }

    /// Parses one statement into a pipeline: cut at each `|` outside quotes,
    /// stages parsed right to left so that each feeds the one after it.
    pub fn parse_pipeline(statement: &str) -> (r: Self)
        ensures
            pipeline_matches(r, statement@),
    {
        let t = chars_of(statement);
        let pieces = pipe_pieces(&t);
        let parts = nonblank_trimmed_exec(&pieces);
        let ghost ps = stage_texts(statement@);
        assert(views(parts@) == ps);
        if parts.len() == 0 {
            return Self::blank();
        }
        let mut i: usize = parts.len() - 1;
        let text = string_from_vec(&parts[i]);
        let mut cur = Self::parse_single_command(Tokenizer::new(text.as_str()));
        let background = cur.background;
        cur.background = false;
        proof {
            assert(ps[i as int] == parts@[i as int]@);
            assert(chain(cur) =~= seq![cur]);
        }
        while i > 0
            invariant
                i < parts@.len(),
                views(parts@) == ps,
                chain(cur).len() == parts@.len() - i,
                forall|k: int| 0 <= k < chain(cur).len() ==> stage_fits(#[trigger] chain(cur)[k], ps[i + k], i + k == ps.len() - 1),
                forall|k: int| 0 <= k < chain(cur).len() ==> !(#[trigger] chain(cur)[k]).in_background(),
            decreases i,
        {
            i = i - 1;
            let text = string_from_vec(&parts[i]);
            let mut c = Self::parse_single_command(Tokenizer::new(text.as_str()));
            c.background = false;
            c.redirect_out = None;
            let ghost tail = chain(cur);
            c.pipe_to = Some(Box::new(cur));
            proof {
                assert(ps[i as int] == parts@[i as int]@);
                assert(chain(c) == seq![c] + tail);
                assert forall|k: int| 0 <= k < chain(c).len() implies stage_fits(#[trigger] chain(c)[k], ps[i + k], i + k == ps.len() - 1) by {
                    if k > 0 {
                        assert(chain(c)[k] == tail[k - 1]);
                    }
                }
                assert forall|k: int| 0 <= k < chain(c).len() implies !(#[trigger] chain(c)[k]).in_background() by {
                    if k > 0 {
                        assert(chain(c)[k] == tail[k - 1]);
                    }
                }
            }
            cur = c;
        }
        let ghost before = cur;
        cur.background = background;
        proof {
            assert(ps.last() == ps[ps.len() - 1]);
            match before.pipe_to {
                Some(b) => {
                    assert(chain(before) == seq![before] + chain(*b));
                    assert(chain(cur) == seq![cur] + chain(*b));
                    assert forall|k: int| 1 <= k < chain(cur).len() implies !(#[trigger] chain(cur)[k]).in_background() by {
                        assert(chain(cur)[k] == chain(before)[k]);
                    }
                    assert forall|k: int| 0 <= k < chain(cur).len() implies stage_fits(#[trigger] chain(cur)[k], ps[k], k == ps.len() - 1) by {
                        if k > 0 {
                            assert(chain(cur)[k] == chain(before)[k]);
                        } else {
                            assert(chain(before)[0] == before);
                        }
                    }
                },
                None => {
                    assert(chain(cur) == seq![cur]);
                    assert(chain(before)[0] == before);
                },
            }
        }
        cur
    }

    fn parse_single_command(tokenizer: Tokenizer) -> (r: Self)
        requires
            tokenizer.redirects() == has_redirect_word(tokenizer.words()),
        ensures
            stage_matches_words(r, tokenizer.words()),
            r.in_background() == stage_background(tokenizer.words()),
            r.pipe_to is None,
    {
        let mut tokenizer = tokenizer;
        let ghost ws = tokenizer.words();
        let redir = tokenizer.has_redirection();
        let tokens = if redir { tokenizer.args_before_redirection() } else { tokenizer.get_args() };
        proof {
            if redir {
                lemma_first_where(ws, tokens@.len() as int, |w: Seq<char>| is_redirect_op(w));
            } else {
                lemma_first_where(ws, tokens@.len() as int, |w: Seq<char>| is_and_op(w));
            }
        }
        let ghost n = tokens@.len() as int;
        assert(n == stage_word_count(ws));
        if tokens.len() == 0 {
            return Self::blank();
        }
        assert(tokens@[0]@ == ws[0]) by {
            assert(tokens.deep_view()[0] == ws.take(n)[0]);
        }
        let program = tokens[0].clone();
        let mut args: Vec<String> = Vec::new();
        let mut k: usize = 1;
        while k < tokens.len()
            invariant
                1 <= k <= tokens@.len(),
                tokens.deep_view() == ws.take(n),
                n == tokens@.len(),
                n <= ws.len(),
                args.deep_view() == ws.subrange(1, k as int),
            decreases tokens@.len() - k,
        {
            let a = tokens[k].clone();
            assert(a@ == ws[k as int]) by {
                assert(tokens.deep_view()[k as int] == ws.take(n)[k as int]);
            }
            let ghost prev = args.deep_view();
            args.push(a);
            assert(args.deep_view() =~= prev.push(a@));
            k = k + 1;
            assert(args.deep_view() =~= ws.subrange(1, k as int));
        }
        let amp = vec!['&'];
        assert(amp@ =~= seq!['&']);
        let background = args.len() > 0 && word_is(&args[args.len() - 1], &amp);
        proof {
            if args@.len() > 0 {
                assert(args.deep_view().last() == args@[args@.len() - 1]@);
            }
        }
        if background {
            args.pop();
            assert(args.deep_view() =~= ws.subrange(1, n).drop_last());
        }
        let mut redirect_in: Option<String> = None;
        let mut redirect_out: Option<(String, bool)> = None;
        if redir {
            let lt = vec!['<'];
            let gt = vec!['>'];
            let gtgt = vec!['>', '>'];
            assert(lt@ =~= seq!['<']);
            assert(gt@ =~= seq!['>']);
            assert(gtgt@ =~= seq!['>', '>']);
            let ghost target = scan_redirects(ws.skip(n), None, None);
            while !tokenizer.is_empty()
                invariant
                    lt@ == seq!['<'],
                    gt@ == seq!['>'],
                    gtgt@ == seq!['>', '>'],
                    scan_redirects(tokenizer.words(), opt_view(redirect_in), out_view(redirect_out)) == target,
                decreases tokenizer.words().len(),
            {
                let ghost cur = tokenizer.words();
                if let Some(op) = tokenizer.next() {
                    let ghost rest = tokenizer.words();
                    proof {
                        if cur.len() >= 2 {
                            assert(rest.drop_first() =~= cur.skip(2));
                            assert(rest[0] == cur[1]);
                        }
                    }
                    if word_is(&op, &lt) {
                        if let Some(file) = tokenizer.next() {
                            redirect_in = Some(file);
                        }
                    } else if word_is(&op, &gt) {
                        if let Some(file) = tokenizer.next() {
                            redirect_out = Some((file, false));
                        }
                    } else if word_is(&op, &gtgt) {
                        if let Some(file) = tokenizer.next() {
                            redirect_out = Some((file, true));
                        }
                    }
                }
            }
            assert(tokenizer.words().len() == 0);
        }
        TishCommand { program, args, background, pipe_to: None, redirect_in, redirect_out }
    }
}

} // verus!
