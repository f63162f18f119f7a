use vstd::prelude::*;

use crate::text::{append_chars, chars_of, lemma_piece_start, piece_start, piece_start_exec, slice_chars, string_from_vec};
use crate::tokenizer::{is_quote, words_of, Tokenizer};

verus! {

/// The values that expansion reads: environment variables, the current
/// user's home directory, and the home directories of named users.
pub struct Environment {
    pub vars: Vec<(String, String)>,
    pub home: Option<String>,
    pub user_homes: Vec<(String, String)>,
}

/// The value of the first entry named `name`.
pub open spec fn lookup(tbl: Seq<(String, String)>, name: Seq<char>) -> Option<Seq<char>>
    decreases tbl.len(),
{
    if tbl.len() == 0 {
        None
    } else if tbl[0].0@ == name {
        Some(tbl[0].1@)
    } else {
        lookup(tbl.drop_first(), name)
    }
}

pub open spec fn is_name_char(c: char) -> bool {
    ('a' <= c && c <= 'z') || ('A' <= c && c <= 'Z') || ('0' <= c && c <= '9') || c == '_'
}

/// End of the run of variable-name characters that starts at `i`.
pub open spec fn name_end(w: Seq<char>, i: int) -> int
    decreases w.len() - i,
{
    if i >= w.len() {
        w.len() as int
    } else if is_name_char(w[i]) {
        name_end(w, i + 1)
    } else {
        i
    }
}

/// Position of the first `c` at or after `i`, or the length of `w`.
pub open spec fn find_char(w: Seq<char>, i: int, c: char) -> int
    decreases w.len() - i,
{
    if i >= w.len() {
        w.len() as int
    } else if w[i] == c {
        i
    } else {
        find_char(w, i + 1, c)
    }
}

/// `$NAME` or `${NAME}` at the start of `w`: the variable's value (empty when
/// unset) followed by the rest of the word. A `$` without a name stays as it is.
pub open spec fn expand_variable_word(vars: Seq<(String, String)>, w: Seq<char>) -> Seq<char> {
    let braced = w.len() >= 2 && w[1] == '{';
    let e = if braced { find_char(w, 2, '}') } else { name_end(w, 1) };
    let name = if braced { w.subrange(2, e) } else { w.subrange(1, e) };
    let after = if braced {
        if e < w.len() { w.subrange(e + 1, w.len() as int) } else { Seq::empty() }
    } else {
        w.subrange(e, w.len() as int)
    };
    if name.len() == 0 {
        w
    } else {
        match lookup(vars, name) {
            Some(v) => v + after,
            None => after,
        }
    }
}

/// `~`, `~/path` or `~user/path` at the start of `w`, with the home directory in place of the tilde part.
pub open spec fn expand_home_word(home: Option<Seq<char>>, users: Seq<(String, String)>, w: Seq<char>) -> Seq<char> {
    let path = w.drop_first();
    if path.len() == 0 {
        match home {
            Some(h) => h,
            None => seq!['~'],
        }
    } else if path[0] == '/' {
        match home {
            Some(h) => h + path,
            None => w,
        }
    } else {
        let s = find_char(path, 0, '/');
        let user = path.subrange(0, s);
        let rest = if s < path.len() { path.subrange(s + 1, path.len() as int) } else { Seq::empty() };
        match lookup(users, user) {
            Some(h) => h + seq!['/'] + rest,
            None => w,
        }
    }
}

pub open spec fn opt_string_view(o: Option<String>) -> Option<Seq<char>> {
    match o {
        Some(s) => Some(s@),
        None => None,
    }
}

pub open spec fn env_home(env: &Environment) -> Option<Seq<char>> {
    opt_string_view(env.home)
}

/// A plain word with its leading `~` or `$` form expanded.
pub open spec fn expand_plain(env: &Environment, w: Seq<char>) -> Seq<char> {
    if w.len() > 0 && w[0] == '~' {
        expand_home_word(env_home(env), env.user_homes@, w)
    } else if w.len() > 0 && w[0] == '$' {
        expand_variable_word(env.vars@, w)
    } else {
        w
    }
}

pub open spec fn is_quoted_word(w: Seq<char>) -> bool {
    w.len() >= 2 && is_quote(w[0]) && w[w.len() - 1] == w[0]
}

/// One word expanded; a word wholly in quotes keeps its quotes and has its inside expanded.
pub open spec fn expand_word(env: &Environment, w: Seq<char>) -> Seq<char> {
    if is_quoted_word(w) {
        seq![w[0]] + expand_plain(env, w.subrange(1, w.len() - 1)) + seq![w[0]]
    } else {
        expand_plain(env, w)
    }
}

/// Words joined with single spaces.
pub open spec fn join_words(ws: Seq<Seq<char>>) -> Seq<char>
    decreases ws.len(),
{
    if ws.len() == 0 {
        Seq::empty()
    } else if ws.len() == 1 {
        ws[0]
    } else {
        join_words(ws.drop_last()) + seq![' '] + ws.last()
    }
}

/// The line with every word expanded and the words joined with single spaces.
pub open spec fn expand_line(env: &Environment, line: Seq<char>) -> Seq<char> {
    join_words(words_of(line).map_values(|w: Seq<char>| expand_word(env, w)))
}

fn lookup_exec(tbl: &Vec<(String, String)>, name: &Vec<char>) -> (r: Option<Vec<char>>)
    ensures
        match lookup(tbl@, name@) {
            Some(v) => r matches Some(x) && x@ == v,
            None => r is None,
        },
{
    let mut i: usize = 0;
    assert(tbl@.skip(0) =~= tbl@);
    while i < tbl.len()
        invariant
            i <= tbl@.len(),
            lookup(tbl@, name@) == lookup(tbl@.skip(i as int), name@),
        decreases tbl@.len() - i,
    {
        let key = chars_of(tbl[i].0.as_str());
        proof {
            assert(tbl@.skip(i as int)[0] == tbl@[i as int]);
            assert(tbl@.skip(i as int).drop_first() =~= tbl@.skip(i + 1));
        }
        if crate::text::same_chars(&key, name) {
            return Some(chars_of(tbl[i].1.as_str()));
        }
        i = i + 1;
    }
    None
}

fn find_char_exec(w: &Vec<char>, i: usize, c: char) -> (r: usize)
    requires
        i <= w@.len(),
    ensures
        r == find_char(w@, i as int, c),
        i <= r <= w@.len(),
{
    let mut k = i;
    while k < w.len() && w[k] != c
        invariant
            i <= k <= w@.len(),
            find_char(w@, k as int, c) == find_char(w@, i as int, c),
        decreases w@.len() - k,
    {
        k = k + 1;
    }
    k
}

fn expand_variable_exec(vars: &Vec<(String, String)>, w: &Vec<char>) -> (r: Vec<char>)
    requires
        w@.len() >= 1,
    ensures
        r@ == expand_variable_word(vars@, w@),
{
    let braced = w.len() >= 2 && w[1] == '{';
    let e: usize;
    if braced {
        e = find_char_exec(w, 2, '}');
    } else {
        let mut k: usize = 1;
        while k < w.len() && (('a' <= w[k] && w[k] <= 'z') || ('A' <= w[k] && w[k] <= 'Z') || ('0' <= w[k] && w[k] <= '9') || w[k] == '_')
            invariant
                1 <= k <= w@.len(),
                name_end(w@, k as int) == name_end(w@, 1),
            decreases w@.len() - k,
        {
            k = k + 1;
        }
        e = k;
    }
    let name = if braced { slice_chars(w, 2, e) } else { slice_chars(w, 1, e) };
    let after = if braced {
        if e < w.len() { slice_chars(w, e + 1, w.len()) } else { Vec::new() }
    } else {
        slice_chars(w, e, w.len())
    };
    proof {
        if !braced {
            assert(after@ =~= w@.subrange(e as int, w@.len() as int));
        } else if e >= w.len() {
            assert(after@ =~= Seq::<char>::empty());
        }
    }
    if name.len() == 0 {
        return w.clone();
    }
    match lookup_exec(vars, &name) {
        Some(v) => {
            let mut r = v;
            append_chars(&mut r, &after);
            r
        },
        None => after,
    }
}

fn expand_home_exec(env: &Environment, w: &Vec<char>) -> (r: Vec<char>)
    requires
        w@.len() >= 1,
    ensures
        r@ == expand_home_word(env_home(env), env.user_homes@, w@),
{
    let path = slice_chars(w, 1, w.len());
    assert(path@ =~= w@.drop_first());
    if path.len() == 0 {
        return match &env.home {
            Some(h) => chars_of(h.as_str()),
            None => vec!['~'],
        };
    }
    if path[0] == '/' {
        return match &env.home {
            Some(h) => {
                let mut r = chars_of(h.as_str());
                append_chars(&mut r, &path);
                r
            },
            None => w.clone(),
        };
    }
    let s = find_char_exec(&path, 0, '/');
    let user = slice_chars(&path, 0, s);
    let rest = if s < path.len() { slice_chars(&path, s + 1, path.len()) } else { Vec::new() };
    proof {
        if s >= path.len() {
            assert(rest@ =~= Seq::<char>::empty());
        }
    }
    match lookup_exec(&env.user_homes, &user) {
        Some(h) => {
            let mut r = h;
            r.push('/');
            append_chars(&mut r, &rest);
            r
        },
        None => w.clone(),
    }
}

fn expand_plain_exec(env: &Environment, w: &Vec<char>) -> (r: Vec<char>)
    ensures
        r@ == expand_plain(env, w@),
{
    if w.len() > 0 && w[0] == '~' {
        expand_home_exec(env, w)
    } else if w.len() > 0 && w[0] == '$' {
        expand_variable_exec(&env.vars, w)
    } else {
        w.clone()
    }
}

fn expand_word_exec(env: &Environment, w: &Vec<char>) -> (r: Vec<char>)
    ensures
        r@ == expand_word(env, w@),
{
    if w.len() >= 2 && (w[0] == '"' || w[0] == '\'') && w[w.len() - 1] == w[0] {
        let inner = slice_chars(w, 1, w.len() - 1);
        let mut r: Vec<char> = vec![w[0]];
        let x = expand_plain_exec(env, &inner);
        append_chars(&mut r, &x);
        r.push(w[0]);
        assert(r@ =~= seq![w@[0]] + expand_plain(env, w@.subrange(1, w@.len() - 1)) + seq![w@[0]]);
        r
    } else {
        expand_plain_exec(env, w)
    }
}

/// The last component of the path `t[0..j)`: trailing `/` and `.` components are passed over.
pub open spec fn last_component(t: Seq<char>, j: int) -> Seq<char>
    decreases j,
    via last_component_decreases
{
    if j <= 0 {
        Seq::empty()
    } else if t[j - 1] == '/' {
        last_component(t, j - 1)
    } else {
        let s = piece_start(t, j);
        if t.subrange(s, j) == seq!['.'] {
            last_component(t, s)
        } else {
            t.subrange(s, j)
        }
    }
}

#[via_fn]
proof fn last_component_decreases(t: Seq<char>, j: int) {
    lemma_piece_start(t, j);
    if j > 0 && t[j - 1] != '/' {
        lemma_piece_start(t, j - 1);
    }
}

/// The short form of a directory that a prompt shows: `/` for the root, `~`
/// when its last component is the user's name, else that last component, or
/// the path itself when it has none.
pub open spec fn pretty_dir_of(t: Seq<char>, username: Option<Seq<char>>) -> Seq<char> {
    let l = last_component(t, t.len() as int);
    if t == seq!['/'] {
        seq!['/']
    } else if username is Some && l.len() > 0 && l == username->0 {
        seq!['~']
    } else if l.len() > 0 && l != seq!['.', '.'] {
        l
    } else {
        t
    }
}

fn last_component_exec(t: &Vec<char>) -> (r: Vec<char>)
    ensures
        r@ == last_component(t@, t@.len() as int),
{
    let mut j = t.len();
    loop
        invariant
            j <= t@.len(),
            last_component(t@, j as int) == last_component(t@, t@.len() as int),
        decreases j,
    {
        if j == 0 {
            return Vec::new();
        }
        if t[j - 1] == '/' {
            j = j - 1;
        } else {
            let s = piece_start_exec(t, j);
            proof {
                lemma_piece_start(t@, j - 1);
                lemma_piece_start(t@, j as int);
            }
            let piece = slice_chars(t, s, j);
            if piece.len() == 1 && piece[0] == '.' {
                assert(piece@ =~= seq!['.']);
                assert(s < j);
                j = s;
            } else {
                proof {
                    if piece@ == seq!['.'] {
                        assert(piece@.len() == 1 && piece@[0] == '.');
                    }
                }
                return piece;
            }
        }
    }
}

/// Expansion of the `~` and `$` forms in a line, against an [`Environment`].
pub struct EnvManager {
    input: String,
}

impl EnvManager {
    pub closed spec fn text(&self) -> Seq<char> {
        self.input@
    }

    pub fn new(input: &str) -> (r: Self)
        ensures
            r.text() == input@,
    {
        EnvManager { input: crate::text::string_from_vec(&chars_of(input)) }
    }

    /// The text this manager was made with.
    pub fn get_self(&self) -> (r: String)
        ensures
            r@ == self.text(),
    {
        self.input.clone()
    }

    /// The text with a leading `$NAME` or `${NAME}` replaced by the variable's value.
    pub fn expand_variable(&self, env: &Environment) -> (r: String)
        ensures
            self.text().len() > 0 && self.text()[0] == '$' ==> r@ == expand_variable_word(env.vars@, self.text()),
            !(self.text().len() > 0 && self.text()[0] == '$') ==> r@ == self.text(),
    {
        let t = chars_of(self.input.as_str());
        if t.len() > 0 && t[0] == '$' {
            string_from_vec(&expand_variable_exec(&env.vars, &t))
        } else {
            self.input.clone()
        }
    }

    /// The text with a leading `~`, `~/path` or `~user/path` replaced by the home directory it names.
    pub fn expand_home(&self, env: &Environment) -> (r: String)
        ensures
            self.text().len() > 0 && self.text()[0] == '~' ==> r@ == expand_home_word(env_home(env), env.user_homes@, self.text()),
            !(self.text().len() > 0 && self.text()[0] == '~') ==> r@ == self.text(),
    {
        let t = chars_of(self.input.as_str());
        if t.len() > 0 && t[0] == '~' {
            string_from_vec(&expand_home_exec(env, &t))
        } else {
            self.input.clone()
        }
    }

    /// The short form of the directory this manager holds, as a prompt shows it.
    pub fn pretty_dir(&self, username: &Option<String>) -> (r: String)
        ensures
            r@ == pretty_dir_of(self.text(), opt_string_view(*username)),
    {
        let t = chars_of(self.input.as_str());
        if t.len() == 1 && t[0] == '/' {
            assert(t@ =~= seq!['/']);
            return string_from_vec(&vec!['/']);
        }
        proof {
            if t@ == seq!['/'] {
                assert(t@.len() == 1 && t@[0] == '/');
            }
        }
        let l = last_component_exec(&t);
        let is_user = match username {
            Some(u) => l.len() > 0 && crate::text::same_chars(&l, &chars_of(u.as_str())),
            None => false,
        };
        if is_user {
            return string_from_vec(&vec!['~']);
        }
        let dots = vec!['.', '.'];
        assert(dots@ =~= seq!['.', '.']);
        if l.len() > 0 && !crate::text::same_chars(&l, &dots) {
            string_from_vec(&l)
        } else {
            self.input.clone()
        }
    }

    /// Expands each word of the text and joins them with single spaces.
    pub fn expand(&self, env: &Environment) -> (r: String)
        ensures
            r@ == expand_line(env, self.text()),
    {
        let mut tokenizer = Tokenizer::new(self.input.as_str());
        let ghost ws = words_of(self.input@);
        let ghost ex = ws.map_values(|w: Seq<char>| expand_word(env, w));
        let mut result: Vec<char> = Vec::new();
        let ghost mut n: int = 0;
        let mut first = true;
        loop
            invariant
                0 <= n <= ws.len(),
                first == (n == 0),
                ex == ws.map_values(|w: Seq<char>| expand_word(env, w)),
                tokenizer.words() == ws.skip(n),
                result@ == join_words(ex.take(n)),
            ensures
                result@ == join_words(ex),
            decreases ws.len() - n,
        {
            let ghost before = tokenizer.words();
            let w = match tokenizer.next() {
                Some(w) => w,
                None => {
                    proof {
                        assert(ex.take(n as int) =~= ex);
                    }
                    break;
                },
            };
            proof {
                assert(ws.skip(n as int)[0] == ws[n as int]);
                assert(ws.skip(n as int).drop_first() =~= ws.skip(n + 1));
                assert(ex.take(n + 1).drop_last() =~= ex.take(n as int));
            }
            let x = expand_word_exec(env, &chars_of(w.as_str()));
            if !first {
                result.push(' ');
            }
            append_chars(&mut result, &x);
            proof {
                if n == 0 {
                    assert(result@ =~= join_words(ex.take(1)));
                }
            }
            proof {
                n = n + 1;
            }
            first = false;
        }
        string_from_vec(&result)
    }
}

} // verus!
