//! Splitting text at a delimiter.
//!
//! Text is modelled as its sequence of characters. A delimiter matches at a
//! position when the characters from there on spell it out; the tokens of a
//! text are the pieces between successive leftmost, non-overlapping matches.
//! An empty delimiter never matches, so it leaves the text as one token.
use vstd::prelude::*;

verus! {

/// Whether `d` occurs in `s` at position `i`.
pub open spec fn occurs_at(s: Seq<char>, d: Seq<char>, i: int) -> bool {
    &&& 0 <= i
    &&& i + d.len() <= s.len()
    &&& s.subrange(i, i + d.len()) == d
}

/// The first position `i` or later at which `d` occurs in `s`.
pub open spec fn find_from(s: Seq<char>, d: Seq<char>, i: int) -> Option<int>
    decreases s.len() + 1 - i,
{
    if i < 0 || i + d.len() > s.len() {
        None
    } else if occurs_at(s, d, i) {
        Some(i)
    } else {
        find_from(s, d, i + 1)
    }
}

/// The first position at which a non-empty delimiter `d` occurs in `s`.
pub open spec fn find(s: Seq<char>, d: Seq<char>) -> Option<int> {
    if d.len() == 0 {
        None
    } else {
        find_from(s, d, 0)
    }
}

/// What `find_from` returns is a match, and no position between the start and
/// it is one.
pub proof fn lemma_find_from(s: Seq<char>, d: Seq<char>, i: int)
    requires
        0 <= i,
    ensures
        match find_from(s, d, i) {
            Some(k) => i <= k && occurs_at(s, d, k) && forall|j: int|
                i <= j < k ==> !occurs_at(s, d, j),
            None => forall|j: int| i <= j ==> !occurs_at(s, d, j),
        },
    decreases s.len() + 1 - i,
{
    if i + d.len() > s.len() {
    } else if occurs_at(s, d, i) {
    } else {
        lemma_find_from(s, d, i + 1);
    }
}

/// The tokens of `s` for the delimiter `d`: the text before the first match,
/// then the tokens of the text after it; with no match, `s` itself.
pub open spec fn tokens(s: Seq<char>, d: Seq<char>) -> Seq<Seq<char>>
    decreases s.len(),
{
    match find(s, d) {
        Some(i) => {
            proof {
                lemma_find_from(s, d, 0);
            }
            seq![s.subrange(0, i)] + tokens(s.subrange(i + d.len(), s.len() as int), d)
        },
        None => seq![s],
    }
}

/// The tokens `ts` laid end to end with `d` between each two.
pub open spec fn join(ts: Seq<Seq<char>>, d: Seq<char>) -> Seq<char>
    decreases ts.len(),
{
    if ts.len() == 0 {
        Seq::empty()
    } else if ts.len() == 1 {
        ts[0]
    } else {
        ts[0] + d + join(ts.drop_first(), d)
    }
}

/// Putting the delimiter back between the tokens gives the text back.
pub proof fn lemma_join_tokens(s: Seq<char>, d: Seq<char>)
    ensures
        join(tokens(s, d), d) == s,
    decreases s.len(),
{
    match find(s, d) {
        Some(i) => {
            lemma_find_from(s, d, 0);
            let rest = s.subrange(i + d.len(), s.len() as int);
            lemma_join_tokens(rest, d);
            let ts = tokens(s, d);
            assert(tokens(rest, d).len() >= 1);
            assert(ts.drop_first() =~= tokens(rest, d));
            assert(s.subrange(0, i) + d + rest =~= s);
        },
        None => {},
    }
}

/// No token holds an occurrence of a non-empty delimiter.
pub proof fn lemma_tokens_free_of_delimiter(s: Seq<char>, d: Seq<char>, k: int, j: int)
    requires
        d.len() > 0,
        0 <= k < tokens(s, d).len(),
    ensures
        !occurs_at(tokens(s, d)[k], d, j),
    decreases s.len(),
{
    lemma_find_from(s, d, 0);
    match find(s, d) {
        Some(i) => {
            let rest = s.subrange(i + d.len(), s.len() as int);
            if k == 0 {
                let t = s.subrange(0, i);
                if occurs_at(t, d, j) {
                    assert(s.subrange(j, j + d.len()) =~= t.subrange(j, j + d.len()));
                    assert(occurs_at(s, d, j));
                }
            } else {
                lemma_tokens_free_of_delimiter(rest, d, k - 1, j);
            }
        },
        None => {},
    }
}

/// `p` is the part of `s` before the first `c`, or all of `s` where `c` does
/// not occur.
pub open spec fn is_part_before(s: Seq<char>, c: char, p: Seq<char>) -> bool {
    &&& p.len() <= s.len()
    &&& p == s.subrange(0, p.len() as int)
    &&& !p.contains(c)
    &&& p.len() < s.len() ==> s[p.len() as int] == c
}

/// The part of a text before the first `c` is its first token for the
/// one-character delimiter `c`.
pub proof fn lemma_part_before_is_first_token(s: Seq<char>, c: char, p: Seq<char>)
    requires
        is_part_before(s, c, p),
    ensures
        tokens(s, seq![c])[0] == p,
{
    let d = seq![c];
    lemma_find_from(s, d, 0);
    assert forall|j: int| 0 <= j < s.len() implies occurs_at(s, d, j) == (s[j] == c) by {
        if s[j] == c {
            assert(s.subrange(j, j + 1) =~= d);
        } else {
            assert(s.subrange(j, j + 1)[0] != d[0]);
        }
    }
    assert forall|j: int| 0 <= j < p.len() implies !occurs_at(s, d, j) by {
        assert(p[j] == s[j]);
    }
    if p.len() < s.len() {
        assert(occurs_at(s, d, p.len() as int));
    } else {
        assert(p =~= s);
    }
}

/// The characters of `s`, in order.
fn chars_of(s: &str) -> (v: Vec<char>)
    ensures
        v@ == s@,
{
    let mut v: Vec<char> = Vec::new();
    for c in it: s.chars()
        invariant
            v@ == it.seq().take(it.index() as int),
    {
        v.push(c);
    }
    v
}

/// Whether `dv` occurs in `sv` at position `i`.
fn matches_at(sv: &Vec<char>, dv: &Vec<char>, i: usize) -> (r: bool)
    requires
        i + dv.len() <= sv.len(),
    ensures
        r == occurs_at(sv@, dv@, i as int),
{
    let mut j: usize = 0;
    while j < dv.len()
        invariant
            j <= dv.len(),
            i + dv.len() <= sv.len(),
            forall|k: int| 0 <= k < j ==> sv@[i + k] == dv@[k],
        decreases dv.len() - j,
    {
        if sv[i + j] != dv[j] {
            assert(sv@.subrange(i as int, i + dv.len())[j as int] != dv@[j as int]);
            return false;
        }
        j += 1;
    }
    assert(sv@.subrange(i as int, i + dv.len()) =~= dv@);
    true
}

/// The first position at which `dv` occurs in `sv`, as `find` gives it.
fn find_in(sv: &Vec<char>, dv: &Vec<char>) -> (r: Option<usize>)
    ensures
        match r {
            Some(i) => find(sv@, dv@) == Some(i as int),
            None => find(sv@, dv@) is None,
        },
{
    if dv.len() == 0 || dv.len() > sv.len() {
        return None;
    }
    let last = sv.len() - dv.len();
    let mut i: usize = 0;
    while i <= last
        invariant
            i <= last + 1,
            last + dv.len() == sv.len(),
            dv.len() > 0,
            find_from(sv@, dv@, 0) == find_from(sv@, dv@, i as int),
        decreases last + 1 - i,
    {
        if matches_at(sv, dv, i) {
            return Some(i);
        }
        i += 1;
    }
    None
}

/// The part of `haystack` before the first `c`, or all of it where `c` does
/// not occur.
pub fn until_char(haystack: &str, c: char) -> (r: &str)
    ensures
        is_part_before(haystack@, c, r@),
{
    let v = chars_of(haystack);
    let mut i: usize = 0;
    while i < v.len() && v[i] != c
        invariant
            i <= v.len(),
            v@ == haystack@,
            forall|k: int| 0 <= k < i ==> v@[k] != c,
        decreases v.len() - i,
    {
        i += 1;
    }
    haystack.substring_char(0, i)
}

/// A tokenizer that hands out, one at a time, the pieces of a text between
/// occurrences of a delimiter.
pub struct StrTok {
    remaining: Option<String>,
    delimiter: Vec<char>,
}

impl View for StrTok {
    /// The tokens still to come, in order.
    type V = Seq<Seq<char>>;

    closed spec fn view(&self) -> Seq<Seq<char>> {
        match self.remaining {
            Some(r) => tokens(r@, self.delimiter@),
            None => Seq::empty(),
        }
    }
}

impl StrTok {
    /// A tokenizer over `haystack` that splits at each `delimiter`.
    pub fn new(haystack: String, delimiter: String) -> (r: StrTok)
        ensures
            r@ == tokens(haystack@, delimiter@),
    {
        let delimiter = chars_of(delimiter.as_str());
        StrTok { remaining: Some(haystack), delimiter }
    }

    /// Hands out the next token, or `None` once all have been handed out.
    pub fn next(&mut self) -> (r: Option<String>)
        ensures
            old(self)@.len() == 0 ==> r is None && final(self)@ == old(self)@,
            old(self)@.len() > 0 ==> (r matches Some(t) && t@ == old(self)@[0]
                && final(self)@ == old(self)@.drop_first()),
    {
        match self.remaining.take() {
            None => None,
            Some(rest) => {
                let sv = chars_of(rest.as_str());
                let n = sv.len();
                match find_in(&sv, &self.delimiter) {
                    Some(i) => {
                        proof {
                            lemma_find_from(sv@, self.delimiter@, 0);
                            assert(occurs_at(sv@, self.delimiter@, i as int));
                        }
                        let token = rest.as_str().substring_char(0, i).to_owned();
                        let after = rest.as_str().substring_char(
                            i + self.delimiter.len(),
                            n,
                        ).to_owned();
                        self.remaining = Some(after);
                        Some(token)
                    },
                    None => Some(rest),
                }
            },
        }
    }
}

} // verus!
