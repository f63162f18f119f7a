use vstd::prelude::*;

use crate::command::views;
use crate::env::{join_words, lookup};
use crate::text::{append_chars, chars_of, same_chars, slice_chars, string_from_vec};
use crate::tokenizer::{words_of, Tokenizer};

verus! {

/// `cur` followed by the words of `acc`, single spaces between.
pub open spec fn with_args(cur: Seq<char>, acc: Seq<Seq<char>>) -> Seq<char> {
    if acc.len() == 0 {
        cur
    } else {
        cur + seq![' '] + join_words(acc)
    }
}

/// Follows the alias chain from `cur`, the arguments that aliases add going
/// in front of those gathered so far. A name already seen, or one without an
/// alias, ends the chain; so does an alias of a name to itself. At most
/// `fuel` aliases are followed.
pub open spec fn resolve_alias(
    aliases: Seq<(String, String)>,
    cur: Seq<char>,
    acc: Seq<Seq<char>>,
    seen: Seq<Seq<char>>,
    fuel: nat,
) -> Seq<char>
    decreases fuel,
{
    if fuel == 0 || seen.contains(cur) {
        with_args(cur, acc)
    } else {
        match lookup(aliases, cur) {
            None => with_args(cur, acc),
            Some(val) => {
                let parts = words_of(val);
                if parts.len() == 0 {
                    cur
                } else {
                    let next = parts[0];
                    let acc2 = if parts.len() > 1 { parts.drop_first() + acc } else { acc };
                    if next == cur {
                        if acc2.len() == 0 { val } else { with_args(next, acc2) }
                    } else {
                        resolve_alias(aliases, next, acc2, seen.push(cur), (fuel - 1) as nat)
                    }
                }
            },
        }
    }
}

/// The line with its first word resolved through the alias table and the
/// other words kept after it, single spaces between; empty for a blank line.
pub open spec fn resolve_line(aliases: Seq<(String, String)>, line: Seq<char>) -> Seq<char> {
    let ws = words_of(line);
    if ws.len() == 0 {
        Seq::empty()
    } else {
        let r = resolve_alias(aliases, ws[0], Seq::empty(), Seq::empty(), aliases.len() + 1);
        with_args(r, ws.drop_first())
    }
}

fn all_words(line: &str) -> (r: Vec<Vec<char>>)
    ensures
        views(r@) == words_of(line@),
{
    let mut t = Tokenizer::new(line);
    let ghost ws = words_of(line@);
    let mut r: Vec<Vec<char>> = Vec::new();
    loop
        invariant
            r@.len() <= ws.len(),
            views(r@) == ws.take(r@.len() as int),
            t.words() == ws.skip(r@.len() as int),
        ensures
            views(r@) == ws,
        decreases ws.len() - r@.len(),
    {
        let ghost n = r@.len() as int;
        proof {
            if n < ws.len() {
                assert(ws.skip(n)[0] == ws[n]);
                assert(ws.skip(n).drop_first() =~= ws.skip(n + 1));
            }
        }
        match t.next() {
            None => {
                assert(ws.take(n) =~= ws);
                break;
            },
            Some(w) => {
                r.push(chars_of(w.as_str()));
                assert(views(r@) =~= ws.take(n + 1));
            },
        }
    }
    r
}

fn copy_chars(v: &Vec<char>) -> (r: Vec<char>)
    ensures
        r@ == v@,
{
    slice_chars(v, 0, v.len())
}

fn join_exec(ws: &Vec<Vec<char>>) -> (r: Vec<char>)
    ensures
        r@ == join_words(views(ws@)),
{
    let mut r: Vec<char> = Vec::new();
    let mut i: usize = 0;
    while i < ws.len()
        invariant
            i <= ws@.len(),
            r@ == join_words(views(ws@).take(i as int)),
        decreases ws@.len() - i,
    {
        proof {
            assert(views(ws@).take(i + 1).drop_last() =~= views(ws@).take(i as int));
        }
        if i > 0 {
            r.push(' ');
        }
        append_chars(&mut r, &ws[i]);
        proof {
            if i == 0 {
                assert(r@ =~= join_words(views(ws@).take(1)));
            }
        }
        i = i + 1;
    }
    assert(views(ws@).take(ws@.len() as int) =~= views(ws@));
    r
}

fn with_args_exec(cur: &Vec<char>, acc: &Vec<Vec<char>>) -> (r: Vec<char>)
    ensures
        r@ == with_args(cur@, views(acc@)),
{
    let mut r = copy_chars(cur);
    if acc.len() > 0 {
        r.push(' ');
        let j = join_exec(acc);
        append_chars(&mut r, &j);
    }
    r
}

fn contains_word(seen: &Vec<Vec<char>>, w: &Vec<char>) -> (r: bool)
    ensures
        r == views(seen@).contains(w@),
{
    let mut i: usize = 0;
    while i < seen.len()
        invariant
            i <= seen@.len(),
            forall|k: int| 0 <= k < i ==> views(seen@)[k] != w@,
        decreases seen@.len() - i,
    {
        if same_chars(&seen[i], w) {
            assert(views(seen@)[i as int] == w@);
            return true;
        }
        i = i + 1;
    }
    false
}

fn lookup_alias(aliases: &Vec<(String, String)>, name: &Vec<char>) -> (r: Option<String>)
    ensures
        match lookup(aliases@, name@) {
            Some(v) => r matches Some(x) && x@ == v,
            None => r is None,
        },
{
    let mut i: usize = 0;
    assert(aliases@.skip(0) =~= aliases@);
    while i < aliases.len()
        invariant
            i <= aliases@.len(),
            lookup(aliases@, name@) == lookup(aliases@.skip(i as int), name@),
        decreases aliases@.len() - i,
    {
        proof {
            assert(aliases@.skip(i as int)[0] == aliases@[i as int]);
            assert(aliases@.skip(i as int).drop_first() =~= aliases@.skip(i + 1));
        }
        if same_chars(&chars_of(aliases[i].0.as_str()), name) {
            return Some(aliases[i].1.clone());
        }
        i = i + 1;
    }
    None
}

fn resolve_alias_recursively(aliases: &Vec<(String, String)>, command: Vec<char>) -> (r: Vec<char>)
    ensures
        r@ == resolve_alias(aliases@, command@, Seq::empty(), Seq::empty(), aliases@.len() + 1),
{
    let mut seen: Vec<Vec<char>> = Vec::new();
    let mut acc: Vec<Vec<char>> = Vec::new();
    let mut cur = command;
    let mut fuel: usize = aliases.len();
    let mut started = false;
    proof {
        assert(views(seen@) =~= Seq::<Seq<char>>::empty());
        assert(views(acc@) =~= Seq::<Seq<char>>::empty());
    }
    loop
        invariant
            fuel <= aliases@.len(),
            resolve_alias(aliases@, cur@, views(acc@), views(seen@), (fuel + (if started { 0int } else { 1int })) as nat)
                == resolve_alias(aliases@, command@, Seq::empty(), Seq::empty(), aliases@.len() + 1),
        decreases fuel + (if started { 0int } else { 1int }),
    {
        let ghost f = fuel + (if started { 0int } else { 1int });
        if (started && fuel == 0) || contains_word(&seen, &cur) {
            return with_args_exec(&cur, &acc);
        }
        if started {
            fuel = fuel - 1;
        }
        started = true;
        assert(f > 0);
        let val = match lookup_alias(aliases, &cur) {
            None => {
                return with_args_exec(&cur, &acc);
            },
            Some(v) => v,
        };
        let parts = all_words(val.as_str());
        if parts.len() == 0 {
            return cur;
        }
        let next = copy_chars(&parts[0]);
        let ghost old_acc = views(acc@);
        if parts.len() > 1 {
            let mut acc2: Vec<Vec<char>> = Vec::new();
            let mut k: usize = 1;
            while k < parts.len()
                invariant
                    1 <= k <= parts@.len(),
                    views(acc2@) == views(parts@).subrange(1, k as int),
                decreases parts@.len() - k,
            {
                let x = copy_chars(&parts[k]);
                let ghost prev = views(acc2@);
                acc2.push(x);
                assert(views(acc2@) =~= prev.push(x@));
                assert(views(acc2@) =~= views(parts@).subrange(1, k + 1));
                k = k + 1;
            }
            let mut m: usize = 0;
            while m < acc.len()
                invariant
                    m <= acc@.len(),
                    views(acc2@) == views(parts@).drop_first() + views(acc@).take(m as int),
                decreases acc@.len() - m,
            {
                let x = copy_chars(&acc[m]);
                let ghost prev = views(acc2@);
                acc2.push(x);
                assert(views(acc2@) =~= prev.push(x@));
                assert(views(acc2@) =~= views(parts@).drop_first() + views(acc@).take(m + 1));
                m = m + 1;
            }
            assert(views(acc@).take(acc@.len() as int) =~= views(acc@));
            acc = acc2;
        }
        assert(views(parts@)[0] == parts@[0]@);
        if same_chars(&next, &cur) {
            if acc.len() == 0 {
                return chars_of(val.as_str());
            }
            return with_args_exec(&next, &acc);
        }
        let ghost old_seen = views(seen@);
        seen.push(cur);
        assert(views(seen@) =~= old_seen.push(cur@));
        cur = next;
    }
}

/// Resolves the first word of `line` through `aliases`, following aliases of
/// aliases and stopping at a name already seen, and keeps the other words after it.
pub fn resolve_command(line: String, aliases: &Vec<(String, String)>) -> (r: String)
    ensures
        r@ == resolve_line(aliases@, line@),
{
    let words = all_words(line.as_str());
    if words.len() == 0 {
        return String::new();
    }
    let first = copy_chars(&words[0]);
    let resolved = resolve_alias_recursively(aliases, first);
    let mut rest: Vec<Vec<char>> = Vec::new();
    let mut k: usize = 1;
    while k < words.len()
        invariant
            1 <= k <= words@.len(),
            views(rest@) == views(words@).subrange(1, k as int),
        decreases words@.len() - k,
    {
        let x = copy_chars(&words[k]);
        let ghost prev = views(rest@);
        rest.push(x);
        assert(views(rest@) =~= prev.push(x@));
        assert(views(rest@) =~= views(words@).subrange(1, k + 1));
        k = k + 1;
    }
    assert(views(words@).subrange(1, words@.len() as int) =~= views(words@).drop_first());
    assert(views(words@)[0] == words@[0]@);
    string_from_vec(&with_args_exec(&resolved, &rest))
}

} // verus!
