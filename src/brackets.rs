//! Bracket resolution: the jump table that pairs every `[` with its `]`.
//!
//! Nesting is described by the running depth of a program: the number of
//! `[` minus the number of `]` among its first `n` characters. A `[` at `i`
//! pairs with the first `]` after it that brings the depth back to the
//! depth before `i`.
use std::collections::HashMap;
use vstd::prelude::*;

use crate::error::{message_of, ErrorKind};

verus! {

/// How one character changes the nesting depth.
pub open spec fn depth_delta(c: char) -> int {
    if c == '[' {
        1
    } else if c == ']' {
        -1
    } else {
        0
    }
}

/// The nesting depth after the first `n` characters of `p`.
pub open spec fn depth(p: Seq<char>, n: int) -> int
    decreases n,
{
    if n <= 0 || n > p.len() {
        0
    } else {
        depth(p, n - 1) + depth_delta(p[n - 1])
    }
}

/// No prefix of `p` closes more brackets than it opens.
pub open spec fn never_underflows(p: Seq<char>) -> bool {
    forall|n: int| 0 <= n <= p.len() ==> depth(p, n) >= 0
}

/// Every bracket of `p` has its partner.
pub open spec fn balanced(p: Seq<char>) -> bool {
    never_underflows(p) && depth(p, p.len() as int) == 0
}

pub open spec fn is_bracket(c: char) -> bool {
    c == '[' || c == ']'
}

/// The `[` at `i` and the `]` at `j` enclose each other: between them the
/// depth stays above the depth before `i`, and after `j` it is back there.
pub open spec fn pairs(p: Seq<char>, i: int, j: int) -> bool {
    &&& 0 <= i < j < p.len()
    &&& p[i] == '['
    &&& p[j] == ']'
    &&& depth(p, j + 1) == depth(p, i)
    &&& forall|k: int| i < k <= j ==> #[trigger] depth(p, k) > depth(p, i)
}

/// `m` maps each bracket position of `p`, and nothing else, to the position
/// of its partner.
pub open spec fn is_jump_table(p: Seq<char>, m: Map<usize, usize>) -> bool {
    &&& forall|i: usize| #[trigger]
        m.contains_key(i) <==> (i < p.len() && is_bracket(p[i as int]))
    &&& forall|i: usize| #[trigger]
        m.contains_key(i) ==> pairs(p, i as int, m[i] as int) || pairs(p, m[i] as int, i as int)
}

/// The partner of the bracket at `i`.
pub open spec fn partner(p: Seq<char>, i: int) -> int {
    choose|j: int| pairs(p, i, j) || pairs(p, j, i)
}

/// A `[` has at most one partner.
pub proof fn lemma_close_unique(p: Seq<char>, i: int, j1: int, j2: int)
    requires
        pairs(p, i, j1),
        pairs(p, i, j2),
    ensures
        j1 == j2,
{
    if j1 < j2 {
        assert(depth(p, j1 + 1) > depth(p, i));
    } else if j2 < j1 {
        assert(depth(p, j2 + 1) > depth(p, i));
    }
}

/// A `]` has at most one partner.
pub proof fn lemma_open_unique(p: Seq<char>, i1: int, i2: int, j: int)
    requires
        pairs(p, i1, j),
        pairs(p, i2, j),
    ensures
        i1 == i2,
{
    if i1 < i2 {
        assert(depth(p, i2) > depth(p, i1));
    } else if i2 < i1 {
        assert(depth(p, i1) > depth(p, i2));
    }
}

/// What a jump table holds at a bracket is that bracket's partner.
pub proof fn lemma_table_entry_is_partner(p: Seq<char>, m: Map<usize, usize>, i: usize)
    requires
        is_jump_table(p, m),
        m.contains_key(i),
    ensures
        m[i] as int == partner(p, i as int),
        0 <= partner(p, i as int) < p.len(),
        p[i as int] == '[' ==> pairs(p, i as int, partner(p, i as int)),
        p[i as int] == ']' ==> pairs(p, partner(p, i as int), i as int),
{
    let w = m[i] as int;
    assert(pairs(p, i as int, w) || pairs(p, w, i as int));
    let j = partner(p, i as int);
    assert(pairs(p, i as int, j) || pairs(p, j, i as int));
    if p[i as int] == '[' {
        lemma_close_unique(p, i as int, w, j);
    } else {
        lemma_open_unique(p, w, j, i as int);
    }
}

/// A program without brackets never changes depth, so it is balanced.
pub proof fn lemma_bracket_free_balanced(p: Seq<char>)
    requires
        forall|i: int| 0 <= i < p.len() ==> !is_bracket(#[trigger] p[i]),
    ensures
        balanced(p),
        forall|n: int| #[trigger] depth(p, n) == 0,
{
    assert forall|n: int| #[trigger] depth(p, n) == 0 by {
        lemma_bracket_free_depth(p, n);
    }
}

proof fn lemma_bracket_free_depth(p: Seq<char>, n: int)
    requires
        forall|i: int| 0 <= i < p.len() ==> !is_bracket(#[trigger] p[i]),
    ensures
        depth(p, n) == 0,
    decreases n,
{
    if n > 0 && n <= p.len() {
        lemma_bracket_free_depth(p, n - 1);
    }
}

/// In a balanced program every `[` has a partner.
pub proof fn lemma_open_has_partner(p: Seq<char>, i: int)
    requires
        balanced(p),
        0 <= i < p.len(),
        p[i] == '[',
    ensures
        pairs(p, i, partner(p, i)),
{
    assert(depth(p, i + 1) == depth(p, i) + 1);
    lemma_find_close(p, i, i + 1);
    let j = choose|j: int| pairs(p, i, j);
    assert(pairs(p, i, j) || pairs(p, j, i));
    let q = partner(p, i);
    assert(pairs(p, i, q) || pairs(p, q, i));
    if pairs(p, i, q) {
    } else {
        assert(p[i] == ']');
    }
}

/// Searches right from `k` for the `]` that brings the depth back to the
/// depth before `i`.
proof fn lemma_find_close(p: Seq<char>, i: int, k: int)
    requires
        balanced(p),
        0 <= i < k <= p.len(),
        p[i] == '[',
        forall|m: int| i < m <= k ==> #[trigger] depth(p, m) > depth(p, i),
    ensures
        exists|j: int| pairs(p, i, j),
    decreases p.len() - k,
{
    assert(depth(p, i) >= 0);
    if k == p.len() {
        assert(depth(p, k) > depth(p, i));
    } else {
        assert(depth(p, k + 1) == depth(p, k) + depth_delta(p[k]));
        if depth(p, k + 1) <= depth(p, i) {
            assert(pairs(p, i, k));
        } else {
            lemma_find_close(p, i, k + 1);
        }
    }
}

/// For a balanced program the jump table is a bijection on bracket
/// positions: every `[` maps to a later `]`, and that `]` maps back to the
/// same `[`; every `]` maps to an earlier `[` that maps back to it.
pub proof fn lemma_jump_table_bijective(p: Seq<char>, m: Map<usize, usize>)
    requires
        balanced(p),
        is_jump_table(p, m),
    ensures
        forall|i: usize|
            #![trigger m.contains_key(i)]
            i < p.len() && p[i as int] == '[' ==> {
                &&& m.contains_key(i)
                &&& i < m[i] < p.len()
                &&& p[m[i] as int] == ']'
                &&& m.contains_key(m[i])
                &&& m[m[i]] == i
            },
        forall|j: usize|
            #![trigger m.contains_key(j)]
            j < p.len() && p[j as int] == ']' ==> {
                &&& m.contains_key(j)
                &&& m[j] < j
                &&& p[m[j] as int] == '['
                &&& m.contains_key(m[j])
                &&& m[m[j]] == j
            },
{
    assert forall|i: usize|
        #![trigger m.contains_key(i)]
        i < p.len() && p[i as int] == '[' implies {
            &&& m.contains_key(i)
            &&& i < m[i] < p.len()
            &&& p[m[i] as int] == ']'
            &&& m.contains_key(m[i])
            &&& m[m[i]] == i
        } by {
        assert(m.contains_key(i));
        lemma_table_entry_is_partner(p, m, i);
        let j = m[i];
        assert(m.contains_key(j));
        lemma_table_entry_is_partner(p, m, j);
        lemma_open_unique(p, i as int, m[j] as int, j as int);
    }
    assert forall|j: usize|
        #![trigger m.contains_key(j)]
        j < p.len() && p[j as int] == ']' implies {
            &&& m.contains_key(j)
            &&& m[j] < j
            &&& p[m[j] as int] == '['
            &&& m.contains_key(m[j])
            &&& m[m[j]] == j
        } by {
        assert(m.contains_key(j));
        lemma_table_entry_is_partner(p, m, j);
        let i = m[j];
        assert(m.contains_key(i));
        lemma_table_entry_is_partner(p, m, i);
        lemma_close_unique(p, i as int, m[i] as int, j as int);
    }
}

/// The jump table is determined by the program text alone: any two tables
/// for the same program are equal, so resolving it twice gives one table.
pub proof fn lemma_jump_table_unique(p: Seq<char>, m1: Map<usize, usize>, m2: Map<usize, usize>)
    requires
        is_jump_table(p, m1),
        is_jump_table(p, m2),
    ensures
        m1 == m2,
{
    assert forall|i: usize| #[trigger] m1.contains_key(i) implies m1[i] == m2[i] by {
        assert(m2.contains_key(i));
        lemma_table_entry_is_partner(p, m1, i);
        lemma_table_entry_is_partner(p, m2, i);
    }
    assert(m1.dom() =~= m2.dom());
    assert(m1 =~= m2);
}

/// Builds the jump table of `programs` in one pass with a stack of the
/// positions of the `[` that are still open.
pub fn create_bracket_map(programs: &[char]) -> (r: Result<HashMap<usize, usize>, String>)
    ensures
        match r {
            Ok(m) => balanced(programs@) && is_jump_table(programs@, m@),
            Err(e) => !balanced(programs@) && e@ == message_of(
                if never_underflows(programs@) {
                    ErrorKind::UnmatchedOpen
                } else {
                    ErrorKind::UnmatchedClose
                },
            ),
        },
{
    broadcast use vstd::std_specs::hash::group_hash_axioms;

    let ghost p = programs@;
    let mut bracket_map: HashMap<usize, usize> = HashMap::new();
    let mut start_stack: Vec<usize> = Vec::new();
    let mut i: usize = 0;
    while i < programs.len()
        invariant
            p == programs@,
            i <= p.len(),
            start_stack@.len() == depth(p, i as int),
            forall|n: int| 0 <= n <= i ==> depth(p, n) >= 0,
            forall|d: int|
                #![trigger start_stack@[d]]
                0 <= d < start_stack@.len() ==> {
                    &&& start_stack@[d] < i
                    &&& p[start_stack@[d] as int] == '['
                    &&& depth(p, start_stack@[d] as int) == d
                    &&& forall|k: int|
                        start_stack@[d] < k <= i ==> #[trigger] depth(p, k) > d
                },
            forall|x: usize| #[trigger]
                bracket_map@.contains_key(x) <==> (x < i && is_bracket(p[x as int])
                    && !start_stack@.contains(x)),
            forall|x: usize| #[trigger]
                bracket_map@.contains_key(x) ==> pairs(p, x as int, bracket_map@[x] as int)
                    || pairs(p, bracket_map@[x] as int, x as int),
        decreases p.len() - i,
    {
        let c = programs[i];
        assert(depth(p, i + 1) == depth(p, i as int) + depth_delta(c));
        if c == '[' {
            let ghost old_stack = start_stack@;
            start_stack.push(i);
            assert forall|d: int|
                #![trigger start_stack@[d]]
                0 <= d < start_stack@.len() implies forall|k: int|
                    start_stack@[d] < k <= i + 1 ==> #[trigger] depth(p, k) > d by {
                if d < old_stack.len() {
                    assert(start_stack@[d] == old_stack[d]);
                }
            }
            assert forall|x: usize| #[trigger]
                bracket_map@.contains_key(x) <==> (x < i + 1 && is_bracket(p[x as int])
                    && !start_stack@.contains(x)) by {
                if x == i {
                    assert(start_stack@[start_stack@.len() - 1] == x);
                } else if start_stack@.contains(x) {
                    let d = choose|d: int| 0 <= d < start_stack@.len() && start_stack@[d] == x;
                    assert(d < old_stack.len());
                    assert(old_stack[d] == x);
                } else if old_stack.contains(x) {
                    let d = choose|d: int| 0 <= d < old_stack.len() && old_stack[d] == x;
                    assert(start_stack@[d] == x);
                }
            }
        } else if c == ']' {
            if start_stack.len() == 0 {
                assert(depth(p, i + 1) < 0);
                return Err(ErrorKind::UnmatchedClose.message());
            }
            let ghost old_stack = start_stack@;
            let ghost top = old_stack.len() - 1;
            let start_index = start_stack.pop().unwrap();
            assert(start_index == old_stack[top]);
            assert(start_stack@ == old_stack.subrange(0, top));
            assert(pairs(p, start_index as int, i as int)) by {
                assert(depth(p, start_index as int) == top);
            }
            bracket_map.insert(start_index, i);
            bracket_map.insert(i, start_index);
            assert forall|d: int|
                #![trigger start_stack@[d]]
                0 <= d < start_stack@.len() implies forall|k: int|
                    start_stack@[d] < k <= i + 1 ==> #[trigger] depth(p, k) > d by {
                assert(start_stack@[d] == old_stack[d]);
            }
            assert forall|x: usize| #[trigger]
                bracket_map@.contains_key(x) <==> (x < i + 1 && is_bracket(p[x as int])
                    && !start_stack@.contains(x)) by {
                if x == start_index {
                    if start_stack@.contains(x) {
                        let d = choose|d: int| 0 <= d < start_stack@.len() && start_stack@[d] == x;
                        assert(old_stack[d] == x);
                    }
                } else if start_stack@.contains(x) {
                    let d = choose|d: int| 0 <= d < start_stack@.len() && start_stack@[d] == x;
                    assert(old_stack[d] == x);
                } else if old_stack.contains(x) {
                    let d = choose|d: int| 0 <= d < old_stack.len() && old_stack[d] == x;
                    if d < top {
                        assert(start_stack@[d] == x);
                    }
                }
            }
        } else {
            assert forall|d: int|
                #![trigger start_stack@[d]]
                0 <= d < start_stack@.len() implies forall|k: int|
                    start_stack@[d] < k <= i + 1 ==> #[trigger] depth(p, k) > d by {}
        }
        i = i + 1;
    }
    if start_stack.len() != 0 {
        return Err(ErrorKind::UnmatchedOpen.message());
    }
    Ok(bracket_map)
}

} // verus!
