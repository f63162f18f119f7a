use vstd::prelude::*;

use crate::command::{
    chain, nonblank_trimmed, pipe_end, pipe_pieces_from, pipeline_matches, stage_fits, stage_raw_args, stage_texts,
    trim, trim_end_at, TishCommand,
};
use crate::env::{expand_line, expand_word, join_words, Environment};
use crate::text::is_space;
use crate::tokenizer::{
    has_redirect_word, is_and_op, is_quote, is_redirect_op, skip_space, word_end, words_from, words_of,
    lemma_shift_words, lemma_word_end,
};

verus! {

/// A word that expansion and the pipeline parser take as it is: not empty,
/// without whitespace, quotes or `|`, not starting with `~` or `$`, and
/// neither a redirection operator nor `&&`.
pub open spec fn is_plain_word(w: Seq<char>) -> bool {
    &&& w.len() > 0
    &&& forall|j: int| 0 <= j < w.len() ==> !is_space(#[trigger] w[j]) && !is_quote(w[j]) && w[j] != '|'
    &&& w[0] != '~' && w[0] != '$'
    &&& !is_redirect_op(w)
    &&& !is_and_op(w)
}

pub open spec fn no_quote(t: Seq<char>) -> bool {
    forall|j: int| 0 <= j < t.len() ==> !is_quote(#[trigger] t[j]) && t[j] != '|'
}

proof fn lemma_word_end_plain(w: Seq<char>, i: int)
    requires
        0 <= i <= w.len(),
        forall|j: int| 0 <= j < w.len() ==> !is_space(#[trigger] w[j]) && !is_quote(w[j]),
    ensures
        word_end(w, i, false) == w.len(),
    decreases w.len() - i,
{
    if i < w.len() {
        lemma_word_end_plain(w, i + 1);
    }
}

proof fn lemma_single_word(w: Seq<char>)
    requires
        w.len() > 0,
        forall|j: int| 0 <= j < w.len() ==> !is_space(#[trigger] w[j]) && !is_quote(w[j]),
    ensures
        words_from(w, 0) == seq![w],
{
    lemma_word_end_plain(w, 0);
    assert(skip_space(w, 0) == 0);
    assert(w.subrange(0, w.len() as int) =~= w);
    assert(words_from(w, w.len() as int) == Seq::<Seq<char>>::empty());
}

proof fn lemma_word_end_split(a: Seq<char>, b: Seq<char>, i: int)
    requires
        0 <= i <= a.len(),
        no_quote(a),
        b.len() > 0,
        is_space(b[0]),
    ensures
        word_end(a + b, i, false) == word_end(a, i, false),
    decreases a.len() - i,
{
    let t = a + b;
    if i < a.len() {
        assert(t[i] == a[i]);
        lemma_word_end_split(a, b, i + 1);
    } else {
        assert(t[i] == b[0]);
    }
}

proof fn lemma_space_step(t: Seq<char>, i: int)
    requires
        0 <= i < t.len(),
        is_space(t[i]),
    ensures
        words_from(t, i) == words_from(t, i + 1),
{
    assert(skip_space(t, i) == skip_space(t, i + 1));
}

proof fn lemma_words_split(a: Seq<char>, b: Seq<char>, i: int)
    requires
        0 <= i <= a.len(),
        no_quote(a),
        b.len() > 0,
        is_space(b[0]),
    ensures
        words_from(a + b, i) == words_from(a, i) + words_from(a + b, a.len() as int),
    decreases a.len() - i,
{
    let t = a + b;
    if i == a.len() {
        assert(words_from(a, i) == Seq::<Seq<char>>::empty());
        assert(words_from(t, i) =~= Seq::<Seq<char>>::empty() + words_from(t, i));
    } else if is_space(a[i]) {
        assert(t[i] == a[i]);
        lemma_space_step(t, i);
        lemma_space_step(a, i);
        lemma_words_split(a, b, i + 1);
    } else {
        assert(t[i] == a[i]);
        assert(skip_space(t, i) == i);
        assert(skip_space(a, i) == i);
        lemma_word_end_split(a, b, i);
        lemma_word_end(a, i, false);
        let e = word_end(a, i, false);
        assert(t.subrange(i, e) =~= a.subrange(i, e));
        lemma_words_split(a, b, e);
        assert(words_from(t, i) =~= seq![a.subrange(i, e)] + words_from(t, e));
        assert(words_from(a, i) =~= seq![a.subrange(i, e)] + words_from(a, e));
    }
}

/// Facts about words joined with single spaces: no quote or `|` comes in,
/// the first and last characters are those of the first and last words, and
/// splitting the line again gives the words back.
proof fn lemma_join_plain(ws: Seq<Seq<char>>)
    requires
        ws.len() > 0,
        forall|i: int| 0 <= i < ws.len() ==> is_plain_word(#[trigger] ws[i]),
    ensures
        no_quote(join_words(ws)),
        join_words(ws).len() > 0,
        join_words(ws)[0] == ws[0][0],
        join_words(ws)[join_words(ws).len() - 1] == ws.last()[ws.last().len() - 1],
        words_of(join_words(ws)) == ws,
    decreases ws.len(),
{
    let w = ws.last();
    assert(is_plain_word(ws[ws.len() - 1]));
    if ws.len() == 1 {
        assert(join_words(ws) == ws[0]);
        lemma_single_word(ws[0]);
        assert(ws =~= seq![ws[0]]);
    } else {
        let d = ws.drop_last();
        assert forall|i: int| 0 <= i < d.len() implies is_plain_word(#[trigger] d[i]) by {
            assert(d[i] == ws[i]);
        }
        lemma_join_plain(d);
        let j = join_words(d);
        let b = seq![' '] + w;
        let t = join_words(ws);
        assert(t == j + b);
        assert(t =~= j + seq![' '] + w);
        assert forall|k: int| 0 <= k < t.len() implies !is_quote(#[trigger] t[k]) && t[k] != '|' by {
            if k < j.len() {
                assert(t[k] == j[k]);
            } else if k > j.len() {
                assert(t[k] == w[k - j.len() - 1]);
            }
        }
        assert(t[0] == j[0]);
        assert(d[0] == ws[0]);
        assert(t[t.len() - 1] == w[w.len() - 1]);
        assert(is_space(b[0]));
        lemma_words_split(j, b, 0);
        lemma_shift_words(j, b, 0);
        assert(j.len() + 0 == j.len());
        lemma_space_step(b, 0);
        lemma_shift_words(seq![' '], w, 0);
        assert(seq![' '] + w == b);
        lemma_single_word(w);
        assert(ws =~= d + seq![w]);
    }
}

proof fn lemma_pipe_end_none(t: Seq<char>, i: int)
    requires
        0 <= i <= t.len(),
        no_quote(t),
    ensures
        pipe_end(t, i, false) == t.len(),
    decreases t.len() - i,
{
    if i < t.len() {
        lemma_pipe_end_none(t, i + 1);
    }
}

/// A statement made only of plain words `p a1 .. an` is one stage whose
/// program is `p`; it runs in the background exactly when `an` is `&`, and
/// its arguments are `a1 .. an` without that trailing `&`.
pub proof fn lemma_plain_statement(env: &Environment, s: Seq<char>, c: TishCommand)
    requires
        words_of(s).len() > 0,
        forall|i: int| 0 <= i < words_of(s).len() ==> is_plain_word(#[trigger] words_of(s)[i]),
        pipeline_matches(c, expand_line(env, s)),
    ensures
        chain(c).len() == 1,
        c.pipe_to is None,
        c.program@ == words_of(s)[0],
        c.in_background() == (words_of(s).len() >= 2 && words_of(s).last() == seq!['&']),
        c.in_background() ==> c.arg_words() == words_of(s).subrange(1, words_of(s).len() - 1),
        !c.in_background() ==> c.arg_words() == words_of(s).subrange(1, words_of(s).len() as int),
{
    let ws = words_of(s);
    assert forall|i: int| 0 <= i < ws.len() implies expand_word(env, ws[i]) == ws[i] by {
        assert(is_plain_word(ws[i]));
        assert(!is_quote(ws[i][0]));
    }
    assert(ws.map_values(|w: Seq<char>| expand_word(env, w)) =~= ws);
    let u = join_words(ws);
    assert(expand_line(env, s) == u);
    lemma_join_plain(ws);
    lemma_pipe_end_none(u, 0);
    assert(pipe_pieces_from(u, 0) == seq![u.subrange(0, u.len() as int)]);
    assert(u.subrange(0, u.len() as int) =~= u);
    let w = ws.last();
    assert(is_plain_word(ws[0]));
    assert(is_plain_word(ws[ws.len() - 1]));
    assert(!is_space(u[0]));
    assert(!is_space(u[u.len() - 1]));
    assert(skip_space(u, 0) == 0);
    assert(trim_end_at(u, u.len() as int) == u.len());
    assert(trim(u) =~= u);
    let pieces = seq![u];
    assert(pieces.drop_last() =~= Seq::<Seq<char>>::empty());
    assert(pieces.last() == u);
    assert(nonblank_trimmed(pieces.drop_last()) == Seq::<Seq<char>>::empty());
    assert(Seq::<Seq<char>>::empty().push(u) =~= seq![u]);
    assert(nonblank_trimmed(pieces) == seq![u]);
    assert(stage_texts(u) == seq![u]);
    let cs = chain(c);
    assert(cs.len() == 1);
    match c.pipe_to {
        Some(b) => {
            assert(chain(*b).len() >= 1);
            assert(false);
        },
        None => {},
    }
    assert(cs[0] == c);
    assert(stage_fits(c, u, true));
    assert forall|i: int| 0 <= i < ws.len() implies !is_redirect_op(#[trigger] ws[i]) by {
        assert(is_plain_word(ws[i]));
    }
    assert(!has_redirect_word(ws));
    crate::command::lemma_first_where_none(ws);
    assert(stage_raw_args(ws) =~= ws.subrange(1, ws.len() as int));
    if ws.len() >= 2 {
        assert(stage_raw_args(ws).last() == ws.last());
        assert(ws.subrange(1, ws.len() as int).drop_last() =~= ws.subrange(1, ws.len() - 1));
    }
}

} // verus!
