use vstd::prelude::*;

use crate::text::{chars_of, piece_start, piece_start_exec, slice_chars, string_from_vec};

verus! {

/// The name a prompt shows for the terminal: the part of its device path
/// after the last `/`, or `ttys000` when input is not a terminal.
pub open spec fn tty_name_of(path: Option<Seq<char>>) -> Seq<char> {
    match path {
        Some(p) => p.subrange(piece_start(p, p.len() as int), p.len() as int),
        None => "ttys000"@,
    }
}

pub fn get_tty_name_or_default(path: Option<String>) -> (r: String)
    ensures
        r@ == tty_name_of(crate::env::opt_string_view(path)),
{
    match path {
        Some(p) => {
            let t = chars_of(p.as_str());
            let s = piece_start_exec(&t, t.len());
            string_from_vec(&slice_chars(&t, s, t.len()))
        },
        None => string_from_vec(&chars_of("ttys000")),
    }
}

} // verus!
