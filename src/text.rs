use vstd::prelude::*;

verus! {

/// Relies on `str::chars` collected into a `Vec`: one entry per character, in order.
#[verifier::external_body]
pub(crate) fn chars_of(s: &str) -> (r: Vec<char>)
    ensures
        r@ == s@,
{
    s.chars().collect()
}

/// Relies on collecting `char`s into a `String`: the string holds exactly those characters.
#[verifier::external_body]
pub(crate) fn string_of(cs: &[char]) -> (r: String)
    ensures
        r@ == cs@,
{
    cs.iter().collect()
}

/// Unicode whitespace, as `char::is_whitespace` documents it: the characters
/// with the `White_Space` property.
pub open spec fn is_space(c: char) -> bool {
    let u = c as u32;
    (0x09 <= u && u <= 0x0D) || u == 0x20 || u == 0x85 || u == 0xA0 || u == 0x1680
        || (0x2000 <= u && u <= 0x200A) || u == 0x2028 || u == 0x2029 || u == 0x202F
        || u == 0x205F || u == 0x3000
}

pub fn is_space_char(c: char) -> (r: bool)
    ensures
        r == is_space(c),
{
    let u = c as u32;
    (0x09 <= u && u <= 0x0D) || u == 0x20 || u == 0x85 || u == 0xA0 || u == 0x1680
        || (0x2000 <= u && u <= 0x200A) || u == 0x2028 || u == 0x2029 || u == 0x202F
        || u == 0x205F || u == 0x3000
}

/// Whether the characters of `a` starting at `i` are those of `b`.
pub open spec fn matches_at(a: Seq<char>, i: int, b: Seq<char>) -> bool {
    0 <= i && i + b.len() <= a.len() && a.subrange(i, i + b.len()) == b
}

pub fn match_at(a: &Vec<char>, i: usize, b: &Vec<char>) -> (r: bool)
    ensures
        r == matches_at(a@, i as int, b@),
{
    if i > a.len() || b.len() > a.len() - i {
        return false;
    }
    let mut k: usize = 0;
    while k < b.len()
        invariant
            i + b.len() <= a.len(),
            k <= b.len(),
            forall|j: int| 0 <= j < k ==> a@[i + j] == b@[j],
        decreases b.len() - k,
    {
        if a[i + k] != b[k] {
            assert(a@.subrange(i as int, i + b.len())[k as int] != b@[k as int]);
            return false;
        }
        k = k + 1;
    }
    assert(a@.subrange(i as int, i + b.len()) =~= b@);
    true
}

pub fn same_chars(a: &Vec<char>, b: &Vec<char>) -> (r: bool)
    ensures
        r == (a@ == b@),
{
    if a.len() != b.len() {
        return false;
    }
    let r = match_at(a, 0, b);
    assert(a@.subrange(0, b@.len() as int) =~= a@);
    r
}

pub fn slice_chars(w: &Vec<char>, s: usize, e: usize) -> (r: Vec<char>)
    requires
        s <= e <= w@.len(),
    ensures
        r@ == w@.subrange(s as int, e as int),
{
    let mut r: Vec<char> = Vec::new();
    let mut k: usize = s;
    while k < e
        invariant
            s <= k <= e <= w@.len(),
            r@ == w@.subrange(s as int, k as int),
        decreases e - k,
    {
        r.push(w[k]);
        k = k + 1;
        assert(r@ =~= w@.subrange(s as int, k as int));
    }
    r
}

pub fn append_chars(a: &mut Vec<char>, b: &Vec<char>)
    ensures
        final(a)@ == old(a)@ + b@,
{
    let mut k: usize = 0;
    let ghost a0 = a@;
    while k < b.len()
        invariant
            k <= b@.len(),
            a@ == a0 + b@.subrange(0, k as int),
        decreases b@.len() - k,
    {
        a.push(b[k]);
        k = k + 1;
        assert(a@ =~= a0 + b@.subrange(0, k as int));
    }
    assert(b@.subrange(0, b@.len() as int) =~= b@);
}

/// A string made of the given characters, as a `Vec`.
pub fn string_from_vec(cs: &Vec<char>) -> (r: String)
    ensures
        r@ == cs@,
{
    string_of(cs.as_slice())
}

/// `s` ends with the characters of `suffix`.
pub open spec fn ends_with(s: Seq<char>, suffix: Seq<char>) -> bool {
    s.len() >= suffix.len() && s.subrange(s.len() - suffix.len(), s.len() as int) == suffix
}

pub fn is_word(s: &Vec<char>, lit: &str) -> (r: bool)
    ensures
        r == (s@ == lit@),
{
    same_chars(s, &chars_of(lit))
}

pub fn has_suffix(s: &Vec<char>, suffix: &str) -> (r: bool)
    ensures
        r == ends_with(s@, suffix@),
{
    let x = chars_of(suffix);
    if x.len() > s.len() {
        return false;
    }
    match_at(s, s.len() - x.len(), &x)
}

/// Start of the `/`-separated piece that ends at `j`: just past the last `/` before `j`, or 0.
pub open spec fn piece_start(t: Seq<char>, j: int) -> int
    decreases j,
{
    if j <= 0 {
        0
    } else if t[j - 1] == '/' {
        j
    } else {
        piece_start(t, j - 1)
    }
}

pub proof fn lemma_piece_start(t: Seq<char>, j: int)
    ensures
        0 <= j ==> 0 <= piece_start(t, j) <= j,
        forall|k: int| piece_start(t, j) <= k < j ==> t[k] != '/',
    decreases j,
{
    if j > 0 && t[j - 1] != '/' {
        lemma_piece_start(t, j - 1);
    }
}

pub fn piece_start_exec(t: &Vec<char>, j: usize) -> (r: usize)
    requires
        j <= t@.len(),
    ensures
        r == piece_start(t@, j as int),
        r <= j,
{
    let mut k = j;
    while k > 0 && t[k - 1] != '/'
        invariant
            k <= j <= t@.len(),
            piece_start(t@, k as int) == piece_start(t@, j as int),
        decreases k,
    {
        k = k - 1;
    }
    k
}

} // verus!
