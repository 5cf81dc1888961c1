use vstd::prelude::*;

use crate::resource_identifier::{index_from, index_from_spec};

verus! {

/// Why a block state text was refused: the part with this number has no `=`.
#[derive(Clone, Copy, Debug, PartialEq, Eq, Hash, Structural)]
pub enum ParseError {
    TooManyEq(usize),
}

/// Whether `a` comes strictly before `b` in dictionary order of characters.
pub open spec fn lex_lt(a: Seq<char>, b: Seq<char>) -> bool
    decreases a.len(),
{
    if a.len() == 0 {
        b.len() > 0
    } else if b.len() == 0 {
        false
    } else if a[0] != b[0] {
        a[0] < b[0]
    } else {
        lex_lt(a.drop_first(), b.drop_first())
    }
}

/// Whether each entry comes no later than the next one.
pub open spec fn sorted(s: Seq<Seq<char>>) -> bool {
    forall|i: int| 0 <= i < s.len() - 1 ==> !lex_lt(#[trigger] s[i + 1], s[i])
}

/// `key=value`.
pub open spec fn entry_spec(key: Seq<char>, value: Seq<char>) -> Seq<char> {
    key + seq!['='] + value
}

/// The properties of a block, as `key=value` entries in dictionary order, so
/// that two states with the same properties are equal.
#[derive(Debug, Hash, PartialEq, Eq)]
pub struct BlockState(Vec<String>);

proof fn lemma_lex_total(a: Seq<char>, b: Seq<char>)
    ensures
        a != b ==> lex_lt(a, b) || lex_lt(b, a),
        !(lex_lt(a, b) && lex_lt(b, a)),
    decreases a.len(),
{
    if a.len() > 0 && b.len() > 0 && a[0] == b[0] {
        lemma_lex_total(a.drop_first(), b.drop_first());
        if a != b {
            assert(a =~= seq![a[0]] + a.drop_first());
            assert(b =~= seq![b[0]] + b.drop_first());
        }
    } else if a.len() == 0 && b.len() == 0 {
        assert(a =~= b);
    }
}

/// Whether `a` comes strictly before `b`.
fn str_lt(a: &str, b: &str) -> (r: bool)
    ensures
        r == lex_lt(a@, b@),
{
    let n = a.unicode_len();
    let m = b.unicode_len();
    let mut i: usize = 0;
    assert(a@.subrange(0, n as int) =~= a@);
    assert(b@.subrange(0, m as int) =~= b@);
    while i < n && i < m && a.get_char(i) == b.get_char(i)
        invariant
            n == a@.len(),
            m == b@.len(),
            i <= n,
            i <= m,
            lex_lt(a@, b@) == lex_lt(a@.subrange(i as int, n as int), b@.subrange(i as int, m as int)),
        decreases n - i,
    {
        proof {
            let sa = a@.subrange(i as int, n as int);
            let sb = b@.subrange(i as int, m as int);
            assert(sa.drop_first() =~= a@.subrange(i + 1, n as int));
            assert(sb.drop_first() =~= b@.subrange(i + 1, m as int));
        }
        i = i + 1;
    }
    if i == n {
        i < m
    } else if i == m {
        false
    } else {
        a.get_char(i) < b.get_char(i)
    }
}

impl BlockState {
    pub closed spec fn view(&self) -> Seq<Seq<char>> {
        Seq::new(self.0@.len(), |i: int| self.0@[i]@)
    }

    /// A state with no properties.
    pub fn new() -> (r: Self)
        ensures
            r@ == Seq::<Seq<char>>::empty(),
    {
        let r = BlockState(Vec::new());
        assert(r@ =~= Seq::<Seq<char>>::empty());
        r
    }

    /// Adds the property `key=value`, keeping the entries in order.
    pub fn insert(&mut self, key: &str, value: &str)
        requires
            sorted(old(self)@),
        ensures
            sorted(final(self)@),
            final(self)@.to_multiset() == old(self)@.to_multiset().insert(entry_spec(key@, value@)),
    {
        proof {
            reveal_strlit("=");
        }
        let mut entry = String::from_str(key);
        entry.append("=");
        entry.append(value);
        let ghost e = entry@;
        assert(e == entry_spec(key@, value@));
        let n = self.0.len();
        let mut p: usize = 0;
        let mut stop = false;
        while !stop && p < n
            invariant
                n == self.0@.len(),
                self@ == old(self)@,
                p <= n,
                e == entry@,
                stop ==> p < n && lex_lt(e, self@[p as int]),
                forall|i: int| 0 <= i < p ==> !lex_lt(e, #[trigger] self@[i]),
            decreases n - p + if stop {
                0int
            } else {
                1int
            },
        {
            if str_lt(entry.as_str(), self.0[p].as_str()) {
                stop = true;
            } else {
                p = p + 1;
            }
        }
        assert(p < n ==> lex_lt(e, self@[p as int]));
        let ghost before = self@;
        self.0.insert(p, entry);
        proof {
            assert(self@ =~= before.insert(p as int, e));
            vstd::seq_lib::to_multiset_insert(before, p as int, e);
            assert forall|i: int| 0 <= i < self@.len() - 1 implies !lex_lt(
                #[trigger] self@[i + 1],
                self@[i],
            ) by {
                assert(sorted(before));
                if i + 1 < p {
                    assert(self@[i] == before[i] && self@[i + 1] == before[i + 1]);
                    assert(!lex_lt(before[i + 1], before[i]));
                } else if i + 1 == p {
                    lemma_lex_total(e, before[i]);
                } else if i == p {
                    lemma_lex_total(e, before[i]);
                } else {
                    assert(self@[i] == before[i - 1] && self@[i + 1] == before[i]);
                    let k = i - 1;
                    assert(!lex_lt(before[k + 1], before[k]));
                }
            }
        }
    }
}

impl Default for BlockState {
    fn default() -> (r: Self)
        ensures
            r@ == Seq::<Seq<char>>::empty(),
    {
        Self::new()
    }
}

/// The parts of `s` from `start` on, separated by `sep`.
pub open spec fn split_from(s: Seq<char>, sep: char, start: int) -> Seq<Seq<char>>
    decreases s.len() - start,
{
    let i = index_from_spec(s, sep, start);
    if start < 0 || start > s.len() || i < start || i >= s.len() {
        seq![s.subrange(start, s.len() as int)]
    } else {
        seq![s.subrange(start, i)] + split_from(s, sep, i + 1)
    }
}

/// Whether `part` holds an `=`.
pub open spec fn has_eq(part: Seq<char>) -> bool {
    index_from_spec(part, '=', 0) < part.len()
}

/// Whether every part of `parts` holds an `=`.
pub open spec fn all_have_eq(parts: Seq<Seq<char>>) -> bool {
    forall|j: int| 0 <= j < parts.len() ==> has_eq(#[trigger] parts[j])
}

proof fn lemma_index_from_bounds(s: Seq<char>, c: char, from: int)
    requires
        0 <= from <= s.len(),
    ensures
        from <= index_from_spec(s, c, from) <= s.len(),
        index_from_spec(s, c, from) < s.len() ==> s[index_from_spec(s, c, from)] == c,
    decreases s.len() - from,
{
    if from < s.len() && s[from] != c {
        lemma_index_from_bounds(s, c, from + 1);
    }
}

impl BlockState {
    /// Parses `key=value,key=value,...`; the empty text is the state with no
    /// properties. A part without `=` is refused with its number.
    pub fn from_str(s: &str) -> (r: Result<BlockState, ParseError>)
        ensures
            r is Ok <==> (s@.len() == 0 || all_have_eq(split_from(s@, ',', 0))),
            r matches Ok(bs) ==> sorted(bs@) && (if s@.len() == 0 {
                bs@.len() == 0
            } else {
                bs@.to_multiset() == split_from(s@, ',', 0).to_multiset()
            }),
            r matches Err(ParseError::TooManyEq(k)) ==> k < split_from(s@, ',', 0).len() && !has_eq(
                split_from(s@, ',', 0)[k as int],
            ) && forall|j: int| 0 <= j < k ==> has_eq(#[trigger] split_from(s@, ',', 0)[j]),
    {
        let mut block_state = BlockState::new();
        let n = s.unicode_len();
        if n == 0 {
            return Ok(block_state);
        }
        let ghost parts = split_from(s@, ',', 0);
        let ghost done: Seq<Seq<char>> = Seq::empty();
        let mut start: usize = 0;
        let mut k: usize = 0;
        loop
            invariant
                n == s@.len(),
                n > 0,
                parts == split_from(s@, ',', 0),
                start <= n,
                k == done.len(),
                k <= start,
                parts == done + split_from(s@, ',', start as int),
                all_have_eq(done),
                sorted(block_state@),
                block_state@.to_multiset() == done.to_multiset(),
            decreases n - start,
        {
            let i = index_from(s, ',', start);
            proof {
                lemma_index_from_bounds(s@, ',', start as int);
            }
            let part = s.substring_char(start, i);
            let plen = part.unicode_len();
            let eq = index_from(part, '=', 0);
            let ghost rest = split_from(s@, ',', start as int);
            assert(rest[0] == part@);
            if eq == plen {
                assert(parts[k as int] == part@);
                assert forall|j: int| 0 <= j < k implies has_eq(#[trigger] parts[j]) by {
                    assert(parts[j] == done[j]);
                }
                return Err(ParseError::TooManyEq(k));
            }
            proof {
                lemma_index_from_bounds(part@, '=', 0);
            }
            let key = part.substring_char(0, eq);
            let value = part.substring_char(eq + 1, plen);
            assert(entry_spec(key@, value@) =~= part@);
            block_state.insert(key, value);
            proof {
                vstd::seq_lib::to_multiset_build(done, part@);
                assert(has_eq(part@));
                done = done.push(part@);
                assert forall|j: int| 0 <= j < done.len() implies has_eq(#[trigger] done[j]) by {}
            }
            if i == n {
                assert(rest =~= seq![part@]);
                assert(parts =~= done);
                return Ok(block_state);
            }
            assert(rest =~= seq![part@] + split_from(s@, ',', i + 1));
            assert(parts =~= done + split_from(s@, ',', i + 1));
            start = i + 1;
            k = k + 1;
        }
    }
}

} // verus!
