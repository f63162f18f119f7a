use vstd::prelude::*;

use crate::text::{chars_of, is_space, is_space_char, same_chars, slice_chars, string_from_vec};

verus! {

pub open spec fn is_quote(c: char) -> bool {
    c == '"' || c == '\''
}

/// Position of the first non-space character at or after `i`, or the length of `t`.
pub open spec fn skip_space(t: Seq<char>, i: int) -> int
    decreases t.len() - i,
{
    if i >= t.len() {
        t.len() as int
    } else if is_space(t[i]) {
        skip_space(t, i + 1)
    } else {
        i
    }
}

/// Position just past the word that runs from `i`: a quote character flips
/// the quoted state, and a space ends the word only outside quotes.
pub open spec fn word_end(t: Seq<char>, i: int, quoted: bool) -> int
    decreases t.len() - i,
{
    if i >= t.len() {
        t.len() as int
    } else if is_quote(t[i]) {
        word_end(t, i + 1, !quoted)
    } else if is_space(t[i]) && !quoted {
        i
    } else {
        word_end(t, i + 1, quoted)
    }
}

/// The words of `t` from position `i` on, quote characters kept.
pub open spec fn words_from(t: Seq<char>, i: int) -> Seq<Seq<char>>
    decreases t.len() - i,
    via words_from_decreases
{
    let s = skip_space(t, i);
    if s >= t.len() {
        Seq::empty()
    } else {
        let e = word_end(t, s, false);
        seq![t.subrange(s, e)] + words_from(t, e)
    }
}

#[via_fn]
proof fn words_from_decreases(t: Seq<char>, i: int) {
    lemma_skip_space(t, i);
    let s = skip_space(t, i);
    if s < t.len() {
        lemma_word_end(t, s, false);
    }
}

/// The words of a whole line.
pub open spec fn words_of(t: Seq<char>) -> Seq<Seq<char>> {
    words_from(t, 0)
}

pub open spec fn and_op() -> Seq<char> {
    seq!['&', '&']
}

pub open spec fn is_redirect_op(w: Seq<char>) -> bool {
    w == seq!['>'] || w == seq!['<'] || w == seq!['>', '>']
}

pub open spec fn has_redirect_word(ws: Seq<Seq<char>>) -> bool {
    exists|j: int| 0 <= j < ws.len() && is_redirect_op(#[trigger] ws[j])
}

proof fn lemma_redirect_push(ws: Seq<Seq<char>>, w: Seq<char>)
    ensures
        has_redirect_word(ws.push(w)) == (has_redirect_word(ws) || is_redirect_op(w)),
{
    let ws2 = ws.push(w);
    if has_redirect_word(ws) {
        let j = choose|j: int| 0 <= j < ws.len() && is_redirect_op(#[trigger] ws[j]);
        assert(ws2[j] == ws[j]);
    }
    if is_redirect_op(w) {
        assert(ws2[ws.len() as int] == w);
    }
    if has_redirect_word(ws2) {
        let j = choose|j: int| 0 <= j < ws2.len() && is_redirect_op(#[trigger] ws2[j]);
        if j < ws.len() {
            assert(ws[j] == ws2[j]);
        }
    }
}

pub open spec fn is_and_op(w: Seq<char>) -> bool {
    w == and_op()
}

/// `n` words are taken before the first that `stop` holds of, or all of them when none does.
pub open spec fn stops_at(ws: Seq<Seq<char>>, n: int, stop: spec_fn(Seq<char>) -> bool) -> bool {
    &&& 0 <= n <= ws.len()
    &&& forall|j: int| 0 <= j < n ==> !stop(#[trigger] ws[j])
    &&& n < ws.len() ==> stop(ws[n])
}

proof fn lemma_quoted_inside(t: Seq<char>, j: int, k: int)
    requires
        0 <= j <= k < t.len(),
        forall|m: int| j <= m < k ==> !is_quote(#[trigger] t[m]),
    ensures
        word_end(t, j, true) == word_end(t, k, true),
    decreases k - j,
{
    if j < k {
        lemma_quoted_inside(t, j + 1, k);
    }
}

/// A quoted span that opens where a word starts, holds no quote character
/// and closes just before a space or the end of the line is one whole word:
/// the spaces inside it are kept and the words after it start past it.
pub proof fn lemma_quoted_span_is_one_word(t: Seq<char>, p: int, i: int, k: int)
    requires
        0 <= p <= i < k < t.len(),
        skip_space(t, p) == i,
        is_quote(t[i]),
        is_quote(t[k]),
        forall|j: int| i < j < k ==> !is_quote(#[trigger] t[j]),
        k + 1 == t.len() || is_space(t[k + 1]),
    ensures
        words_from(t, p) == seq![t.subrange(i, k + 1)] + words_from(t, k + 1),
{
    lemma_quoted_inside(t, i + 1, k);
    assert(word_end(t, k, true) == word_end(t, k + 1, false));
    assert(word_end(t, i, false) == k + 1);
}

/// A quoted span: a quote character, characters that are not quotes, and a closing quote.
pub open spec fn is_quoted_span(q: Seq<char>) -> bool {
    &&& q.len() >= 2
    &&& is_quote(q[0])
    &&& is_quote(q[q.len() - 1])
    &&& forall|j: int| 1 <= j < q.len() - 1 ==> !is_quote(#[trigger] q[j])
}

/// The spans written one after another, a single space between two.
pub open spec fn spans_line(sp: Seq<Seq<char>>) -> Seq<char>
    decreases sp.len(),
{
    if sp.len() == 0 {
        Seq::empty()
    } else if sp.len() == 1 {
        sp[0]
    } else {
        sp[0] + seq![' '] + spans_line(sp.drop_first())
    }
}

pub proof fn lemma_shift_skip(a: Seq<char>, b: Seq<char>, i: int)
    requires
        0 <= i,
    ensures
        skip_space(a + b, a.len() + i) == a.len() + skip_space(b, i),
    decreases b.len() - i,
{
    let t = a + b;
    if i < b.len() {
        assert(t[a.len() + i] == b[i]);
        lemma_shift_skip(a, b, i + 1);
    }
}

pub proof fn lemma_shift_word_end(a: Seq<char>, b: Seq<char>, i: int, quoted: bool)
    requires
        0 <= i,
    ensures
        word_end(a + b, a.len() + i, quoted) == a.len() + word_end(b, i, quoted),
    decreases b.len() - i,
{
    let t = a + b;
    if i < b.len() {
        assert(t[a.len() + i] == b[i]);
        lemma_shift_word_end(a, b, i + 1, !quoted);
        lemma_shift_word_end(a, b, i + 1, quoted);
    }
}

pub proof fn lemma_shift_words(a: Seq<char>, b: Seq<char>, i: int)
    requires
        0 <= i <= b.len(),
    ensures
        words_from(a + b, a.len() + i) == words_from(b, i),
    decreases b.len() - i,
{
    let t = a + b;
    lemma_shift_skip(a, b, i);
    lemma_skip_space(b, i);
    let s = skip_space(b, i);
    if s < b.len() {
        lemma_shift_word_end(a, b, s, false);
        lemma_word_end(b, s, false);
        let e = word_end(b, s, false);
        assert(t.subrange(a.len() + s, a.len() + e) =~= b.subrange(s, e));
        lemma_shift_words(a, b, e);
    }
}

/// A line made only of quoted spans, each holding no quote character inside,
/// with a single space between two, splits into exactly those spans: one word
/// per span, the whitespace inside the quotes kept.
pub proof fn lemma_quoted_line_words(sp: Seq<Seq<char>>)
    requires
        forall|i: int| 0 <= i < sp.len() ==> is_quoted_span(#[trigger] sp[i]),
    ensures
        words_of(spans_line(sp)) == sp,
    decreases sp.len(),
{
    if sp.len() == 0 {
        assert(words_from(Seq::<char>::empty(), 0) == Seq::<Seq<char>>::empty());
        assert(sp =~= Seq::<Seq<char>>::empty());
    } else {
        let q = sp[0];
        assert(is_quoted_span(q));
        let k = q.len() - 1;
        let t = spans_line(sp);
        if sp.len() == 1 {
            assert(t == q);
            assert(skip_space(t, 0) == 0);
            lemma_quoted_span_is_one_word(t, 0, 0, k);
            assert(t.subrange(0, k + 1) =~= q);
            assert(words_from(t, k + 1) == Seq::<Seq<char>>::empty());
            assert(sp =~= seq![q]);
        } else {
            let rest = sp.drop_first();
            assert forall|i: int| 0 <= i < rest.len() implies is_quoted_span(#[trigger] rest[i]) by {
                assert(rest[i] == sp[i + 1]);
            }
            lemma_quoted_line_words(rest);
            let a = q + seq![' '];
            let r = spans_line(rest);
            assert(t == a + r);
            assert(t[0] == q[0]);
            assert(t[k + 1] == ' ');
            assert forall|j: int| 0 < j < k implies !is_quote(#[trigger] t[j]) by {
                assert(t[j] == q[j]);
            }
            assert(t[k] == q[k]);
            assert(skip_space(t, 0) == 0);
            lemma_quoted_span_is_one_word(t, 0, 0, k);
            assert(t.subrange(0, k + 1) =~= q);
            assert(skip_space(t, k + 1) == skip_space(t, k + 2));
            assert(words_from(t, k + 1) == words_from(t, k + 2));
            lemma_shift_words(a, r, 0);
            assert(sp =~= seq![q] + rest);
        }
    }
}

pub proof fn lemma_skip_space(t: Seq<char>, i: int)
    ensures
        i <= t.len() ==> i <= skip_space(t, i),
        skip_space(t, i) <= t.len() || skip_space(t, i) == i,
        i >= t.len() ==> skip_space(t, i) == t.len(),
        skip_space(t, i) < t.len() ==> !is_space(t[skip_space(t, i)]) && skip_space(t, i) >= i,
        forall|j: int| i <= j < skip_space(t, i) ==> is_space(#[trigger] t[j]),
    decreases t.len() - i,
{
    if i < t.len() && is_space(t[i]) {
        lemma_skip_space(t, i + 1);
    }
}

pub proof fn lemma_word_end(t: Seq<char>, i: int, quoted: bool)
    ensures
        i <= t.len() ==> i <= word_end(t, i, quoted) <= t.len(),
        i < t.len() && !is_space(t[i]) ==> i < word_end(t, i, quoted),
    decreases t.len() - i,
{
    if i < t.len() {
        lemma_word_end(t, i + 1, !quoted);
        lemma_word_end(t, i + 1, quoted);
    }
}

/// Splits a line into words one at a time. Whitespace separates words except
/// inside quotes; quote characters stay in the word they belong to, and an
/// unterminated quote runs to the end of the line.
#[derive(Clone, Debug)]
pub struct Tokenizer {
    text: Vec<char>,
    pos: usize,
    has_redirection: bool,
}

/// Start and end of the next word at or after `i`; both equal the length when none is left.
fn word_bounds(t: &Vec<char>, i: usize) -> (r: (usize, usize))
    ensures
        r.0 == skip_space(t@, i as int),
        r.0 < t@.len() ==> r.1 == word_end(t@, r.0 as int, false),
        r.0 >= t@.len() ==> r.1 == r.0,
        r.0 <= r.1 <= t@.len(),
{
    let mut j: usize = i;
    if j > t.len() {
        j = t.len();
    }
    while j < t.len() && is_space_char(t[j])
        invariant
            j <= t@.len(),
            skip_space(t@, j as int) == skip_space(t@, i as int),
        decreases t@.len() - j,
    {
        j = j + 1;
    }
    let s = j;
    if s >= t.len() {
        return (s, s);
    }
    let mut k: usize = s;
    let mut quoted = false;
    let mut stopped = false;
    while k < t.len() && !stopped
        invariant
            s <= k <= t@.len(),
            word_end(t@, k as int, quoted) == word_end(t@, s as int, false),
            stopped ==> k < t@.len() && is_space(t@[k as int]) && !quoted,
        decreases t@.len() - k + (if stopped { 0int } else { 1int }),
    {
        let c = t[k];
        if c == '"' || c == '\'' {
            quoted = !quoted;
            k = k + 1;
        } else if is_space_char(c) && !quoted {
            stopped = true;
        } else {
            k = k + 1;
        }
    }
    proof {
        lemma_word_end(t@, k as int, quoted);
    }
    (s, k)
}

impl Tokenizer {
    /// The words not yet taken.
    pub closed spec fn words(&self) -> Seq<Seq<char>> {
        words_from(self.text@, self.pos as int)
    }

    /// Whether the line handed to `new` holds a redirection operator as a word of its own.
    pub closed spec fn redirects(&self) -> bool {
        self.has_redirection
    }

    pub fn new(line: &str) -> (r: Self)
        ensures
            r.words() == words_of(line@),
            r.redirects() == has_redirect_word(words_of(line@)),
    {
        let text = chars_of(line);
        let mut scan = Tokenizer { text: text.clone(), pos: 0, has_redirection: false };
        let ghost all = scan.words();
        let mut found = false;
        let ghost mut n: int = 0;
        loop
            invariant
                all == words_from(text@, 0),
                scan.text@ == text@,
                0 <= n <= all.len(),
                scan.words() == all.skip(n),
                found == has_redirect_word(all.take(n)),
            ensures
                found == has_redirect_word(all),
            decreases scan.words().len(),
        {
            let ghost before = scan.words();
            let w = scan.next_chars();
            let w = match w {
                Some(w) => w,
                None => {
                    proof {
                        assert(before.len() == 0);
                        assert(all.take(n) =~= all);
                    }
                    break;
                },
            };
            let gt = vec!['>'];
            let lt = vec!['<'];
            let gtgt = vec!['>', '>'];
            assert(gt@ =~= seq!['>']);
            assert(lt@ =~= seq!['<']);
            assert(gtgt@ =~= seq!['>', '>']);
            let redir = same_chars(&w, &gt) || same_chars(&w, &lt) || same_chars(&w, &gtgt);
            proof {
                assert(all.skip(n)[0] == all[n]);
                assert(all.skip(n).drop_first() =~= all.skip(n + 1));
                assert(all.take(n + 1) =~= all.take(n).push(all[n]));
                lemma_redirect_push(all.take(n), all[n]);
                n = n + 1;
            }
            found = found || redir;
        }
        Tokenizer { text, pos: 0, has_redirection: found }
    }

    fn next_chars(&mut self) -> (r: Option<Vec<char>>)
        ensures
            final(self).text@ == old(self).text@,
            final(self).has_redirection == old(self).has_redirection,
            old(self).words().len() == 0 ==> r is None && final(self).words().len() == 0,
            old(self).words().len() > 0 ==> (r matches Some(w) && w@ == old(self).words()[0]
                && final(self).words() == old(self).words().drop_first()),
    {
        let (s, e) = word_bounds(&self.text, self.pos);
        proof {
            lemma_skip_space(self.text@, self.pos as int);
        }
        if s >= self.text.len() {
            return None;
        }
        let w = slice_chars(&self.text, s, e);
        self.pos = e;
        proof {
            let t = self.text@;
            assert(words_from(t, old(self).pos as int) == seq![t.subrange(s as int, e as int)] + words_from(t, e as int));
            assert((seq![t.subrange(s as int, e as int)] + words_from(t, e as int)).drop_first() =~= words_from(t, e as int));
        }
        Some(w)
    }

    /// Takes the next word.
    pub fn next(&mut self) -> (r: Option<String>)
        ensures
            final(self).redirects() == old(self).redirects(),
            old(self).words().len() == 0 ==> r is None && final(self).words().len() == 0,
            old(self).words().len() > 0 ==> (r matches Some(w) && w@ == old(self).words()[0]
                && final(self).words() == old(self).words().drop_first()),
    {
        match self.next_chars() {
            Some(w) => Some(string_from_vec(&w)),
            None => None,
        }
    }

    fn peek_chars(&self) -> (r: Option<Vec<char>>)
        ensures
            self.words().len() == 0 ==> r is None,
            self.words().len() > 0 ==> (r matches Some(w) && w@ == self.words()[0]),
    {
        let (s, e) = word_bounds(&self.text, self.pos);
        proof {
            lemma_skip_space(self.text@, self.pos as int);
        }
        if s >= self.text.len() {
            return None;
        }
        Some(slice_chars(&self.text, s, e))
    }

    /// The next word without taking it; empty when none is left.
    pub fn peek(&self) -> (r: String)
        ensures
            self.words().len() > 0 ==> r@ == self.words()[0],
            self.words().len() == 0 ==> r@ == Seq::<char>::empty(),
    {
        match self.peek_chars() {
            Some(w) => string_from_vec(&w),
            None => String::new(),
        }
    }

    /// Takes the words up to the first `&&`, which is taken too but not returned.
    pub fn get_args(&mut self) -> (r: Vec<String>)
        ensures
            final(self).redirects() == old(self).redirects(),
            stops_at(old(self).words(), r@.len() as int, |w: Seq<char>| is_and_op(w)),
            r.deep_view() == old(self).words().take(r@.len() as int),
            r@.len() < old(self).words().len() ==> final(self).words() == old(self).words().skip(r@.len() as int + 1),
            r@.len() == old(self).words().len() ==> final(self).words().len() == 0,
    {
        let ghost ws = self.words();
        let ghost redir = self.redirects();
        let and = vec!['&', '&'];
        assert(and@ =~= and_op());
        let mut args: Vec<String> = Vec::new();
        loop
            invariant_except_break
                self.words() == ws.skip(args@.len() as int),
            invariant
                self.redirects() == redir,
                and@ == and_op(),
                args@.len() <= ws.len(),
                args.deep_view() == ws.take(args@.len() as int),
                forall|j: int| 0 <= j < args@.len() ==> !is_and_op(#[trigger] ws[j]),
            ensures
                self.redirects() == redir,
                stops_at(ws, args@.len() as int, |w: Seq<char>| is_and_op(w)),
                args.deep_view() == ws.take(args@.len() as int),
                args@.len() < ws.len() ==> self.words() == ws.skip(args@.len() as int + 1),
                args@.len() == ws.len() ==> self.words().len() == 0,
            decreases self.words().len(),
        {
            let ghost n = args@.len() as int;
            proof {
                if n < ws.len() {
                    assert(ws.skip(n)[0] == ws[n]);
                    assert(ws.skip(n).drop_first() =~= ws.skip(n + 1));
                }
            }
            match self.next_chars() {
                None => {
                    break;
                },
                Some(w) => {
                    if same_chars(&w, &and) {
                        break;
                    }
                    let word = string_from_vec(&w);
                    args.push(word);
                    proof {
                        assert(args.deep_view() =~= ws.take(n + 1));
                    }
                },
            }
        }
        args
    }

    /// Takes the words before the first redirection operator, which stays in
    /// place. Without a redirection operator in the line this is `get_args`.
    pub fn args_before_redirection(&mut self) -> (r: Vec<String>)
        ensures
            final(self).redirects() == old(self).redirects(),
            !old(self).redirects() ==> {
                &&& stops_at(old(self).words(), r@.len() as int, |w: Seq<char>| is_and_op(w))
                &&& r.deep_view() == old(self).words().take(r@.len() as int)
                &&& r@.len() < old(self).words().len() ==> final(self).words() == old(self).words().skip(r@.len() as int + 1)
                &&& r@.len() == old(self).words().len() ==> final(self).words().len() == 0
            },
            old(self).redirects() ==> {
                &&& stops_at(old(self).words(), r@.len() as int, |w: Seq<char>| is_redirect_op(w))
                &&& r.deep_view() == old(self).words().take(r@.len() as int)
                &&& final(self).words() == old(self).words().skip(r@.len() as int)
            },
    {
        if !self.has_redirection() {
            return self.get_args();
        }
        let ghost ws = self.words();
        let ghost redir = self.redirects();
        let gt = vec!['>'];
        let lt = vec!['<'];
        let gtgt = vec!['>', '>'];
        assert(gt@ =~= seq!['>']);
        assert(lt@ =~= seq!['<']);
        assert(gtgt@ =~= seq!['>', '>']);
        let mut args: Vec<String> = Vec::new();
        loop
            invariant
                self.redirects() == redir,
                gt@ == seq!['>'],
                lt@ == seq!['<'],
                gtgt@ == seq!['>', '>'],
                args@.len() <= ws.len(),
                args.deep_view() == ws.take(args@.len() as int),
                forall|j: int| 0 <= j < args@.len() ==> !is_redirect_op(#[trigger] ws[j]),
                self.words() == ws.skip(args@.len() as int),
            ensures
                self.redirects() == redir,
                stops_at(ws, args@.len() as int, |w: Seq<char>| is_redirect_op(w)),
                args.deep_view() == ws.take(args@.len() as int),
                self.words() == ws.skip(args@.len() as int),
            decreases self.words().len(),
        {
            let ghost n = args@.len() as int;
            proof {
                if n < ws.len() {
                    assert(ws.skip(n)[0] == ws[n]);
                    assert(ws.skip(n).drop_first() =~= ws.skip(n + 1));
                }
            }
            let w = match self.peek_chars() {
                None => {
                    break;
                },
                Some(w) => w,
            };
            if same_chars(&w, &gt) || same_chars(&w, &lt) || same_chars(&w, &gtgt) {
                break;
            }
            self.next_chars();
            let word = string_from_vec(&w);
            args.push(word);
            proof {
                assert(args.deep_view() =~= ws.take(n + 1));
            }
        }
        args
    }

    pub fn has_redirection(&self) -> (r: bool)
        ensures
            r == self.redirects(),
    {
        self.has_redirection
    }

    pub fn is_empty(&self) -> (r: bool)
        ensures
            r == (self.words().len() == 0),
    {
        let (s, _e) = word_bounds(&self.text, self.pos);
        proof {
            lemma_skip_space(self.text@, self.pos as int);
        }
        s >= self.text.len()
    }
}

} // verus!
