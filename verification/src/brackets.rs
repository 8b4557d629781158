//! Bracket matching: one left-to-right scan of a canonical program that
//! pairs every forward jump `'['` with its matching backward jump `']'`.

use std::collections::HashMap;
use vstd::prelude::*;

verus! {

broadcast use vstd::std_specs::hash::group_hash_axioms;

/// Nesting depth of forward jumps just before position `i`: the number of
/// `'['` minus the number of `']'` among `code[0 .. i]`.
pub open spec fn depth(code: Seq<char>, i: int) -> int
    decreases i,
{
    if i <= 0 {
        0
    } else {
        depth(code, i - 1) + if code[i - 1] == '[' {
            1int
        } else if code[i - 1] == ']' {
            -1int
        } else {
            0int
        }
    }
}

/// The rest of the matcher's scan, from position `i` on: `stack` holds the
/// positions of the forward jumps opened so far and not yet closed, most
/// recent last, and `m` the pairs already recorded in both directions.
/// `None` means a backward jump was found with no forward jump open.
pub open spec fn brace_rec(
    m: Map<usize, usize>,
    stack: Seq<usize>,
    code: Seq<char>,
    i: int,
) -> Option<Map<usize, usize>>
    decreases code.len() - i,
{
    if i < 0 || i >= code.len() {
        Some(m)
    } else if code[i] == '[' {
        brace_rec(m, stack.push(i as usize), code, i + 1)
    } else if code[i] == ']' {
        if stack.len() == 0 {
            None
        } else {
            brace_rec(
                m.insert(i as usize, stack.last()).insert(stack.last(), i as usize),
                stack.drop_last(),
                code,
                i + 1,
            )
        }
    } else {
        brace_rec(m, stack, code, i + 1)
    }
}

/// The jump table of a canonical program, or `None` if some backward jump
/// has no matching forward jump.
pub open spec fn bracemap_of(code: Seq<char>) -> Option<Map<usize, usize>> {
    brace_rec(Map::empty(), Seq::empty(), code, 0)
}

/// Scan `code` once and pair each forward-jump position with its matching
/// backward-jump position, recording both directions. Standard LIFO
/// matching: the most recently opened unclosed forward jump matches first.
/// Fails, with no table at all, exactly when some `']'` stands at a
/// position where no forward jump is open.
pub fn build_bracemap(code: &str) -> (r: Option<HashMap<usize, usize>>)
    ensures
        match r {
            Some(b) => bracemap_of(code@) == Some(b@),
            None => bracemap_of(code@) is None,
        },
        (r is None) <==> exists|j: int|
            0 <= j < code@.len() && code@[j] == ']' && depth(code@, j) <= 0,
{
    let n = code.unicode_len();
    let mut b_tmp: Vec<usize> = Vec::new();
    let mut b: HashMap<usize, usize> = HashMap::new();
    let mut p: usize = 0;
    while p < n
        invariant
            n == code@.len(),
            p <= n,
            brace_rec(b@, b_tmp@, code@, p as int) == bracemap_of(code@),
        decreases n - p,
    {
        let c = code.get_char(p);
        let ghost stack0 = b_tmp@;
        if c == '[' {
            b_tmp.push(p);
        } else if c == ']' {
            match b_tmp.pop() {
                None => {
                    proof {
                        lemma_brace_rec_none(b@, b_tmp@, code@, p as int);
                        lemma_brace_rec_none(Map::empty(), Seq::empty(), code@, 0);
                    }
                    return None;
                },
                Some(s) => {
                    proof {
                        assert(b_tmp@ =~= stack0.drop_last());
                    }
                    b.insert(p, s);
                    b.insert(s, p);
                },
            }
        }
        p = p + 1;
    }
    proof {
        lemma_brace_rec_none(Map::empty(), Seq::empty(), code@, 0);
    }
    Some(b)
}

/// What a completed jump table guarantees: every recorded position lies
/// inside the program, the pairing is symmetric, and every backward jump
/// of the program is recorded.
pub open spec fn jumps_ok(code: Seq<char>, m: Map<usize, usize>) -> bool {
    &&& forall|p: usize| #[trigger] m.contains_key(p) ==> p < code.len() && m[p] < code.len()
    &&& forall|p: usize| #[trigger] m.contains_key(p) ==> m.contains_key(m[p]) && m[m[p]] == p
    &&& forall|p: usize| p < code.len() && code[p as int] == ']' ==> #[trigger] m.contains_key(p)
}

/// Invariants of the scan's intermediate state: stack entries are earlier
/// positions, strictly increasing, not yet recorded; recorded pairs are
/// earlier positions, symmetric; every backward jump already passed is
/// recorded.
pub open spec fn scan_ok(m: Map<usize, usize>, stack: Seq<usize>, code: Seq<char>, i: int) -> bool {
    &&& forall|k: int| 0 <= k < stack.len() ==> #[trigger] stack[k] < i
    &&& forall|k1: int, k2: int|
        0 <= k1 < k2 < stack.len() ==> #[trigger] stack[k1] < #[trigger] stack[k2]
    &&& forall|k: int| 0 <= k < stack.len() ==> !m.contains_key(#[trigger] stack[k])
    &&& forall|p: usize| #[trigger] m.contains_key(p) ==> p < i && m[p] < i
    &&& forall|p: usize| #[trigger] m.contains_key(p) ==> m.contains_key(m[p]) && m[m[p]] == p
    &&& forall|p: usize| 0 <= p < i && code[p as int] == ']' ==> #[trigger] m.contains_key(p)
}

/// A scan that completes from a sound intermediate state yields a sound
/// table for the whole program.
pub proof fn lemma_brace_rec_ok(
    m: Map<usize, usize>,
    stack: Seq<usize>,
    code: Seq<char>,
    i: int,
    r: Map<usize, usize>,
)
    requires
        0 <= i <= code.len(),
        code.len() <= usize::MAX,
        scan_ok(m, stack, code, i),
        brace_rec(m, stack, code, i) == Some(r),
    ensures
        jumps_ok(code, r),
    decreases code.len() - i,
{
    if i >= code.len() {
        assert(r == m);
    } else if code[i] == '[' {
        let stack2 = stack.push(i as usize);
        assert forall|k1: int, k2: int|
            0 <= k1 < k2 < stack2.len() implies #[trigger] stack2[k1] < #[trigger] stack2[k2] by {
            if k2 < stack.len() {
                assert(stack[k1] < stack[k2]);
            } else {
                assert(stack2[k2] == i as usize);
                assert(stack[k1] < i);
            }
        }
        assert(scan_ok(m, stack2, code, i + 1));
        lemma_brace_rec_ok(m, stack2, code, i + 1, r);
    } else if code[i] == ']' {
        let s = stack.last();
        let m2 = m.insert(i as usize, s).insert(s, i as usize);
        let stack2 = stack.drop_last();
        assert(s == stack[stack.len() - 1]);
        assert(s < i);
        assert(!m.contains_key(s));
        assert forall|k: int|
            0 <= k < stack2.len() implies #[trigger] stack2[k] < i + 1 && !m2.contains_key(
            stack2[k],
        ) by {
            assert(stack2[k] == stack[k]);
            assert(stack[k] < stack[stack.len() - 1]);
        }
        assert forall|p: usize| #[trigger] m2.contains_key(p) implies p < i + 1 && m2[p] < i + 1
            && m2.contains_key(m2[p]) && m2[m2[p]] == p by {
            if p == i as usize || p == s {
            } else {
                assert(m.contains_key(p));
                assert(m.contains_key(m[p]));
                assert(m[p] != s);
                assert(m2[p] == m[p]);
            }
        }
        assert(scan_ok(m2, stack2, code, i + 1));
        lemma_brace_rec_ok(m2, stack2, code, i + 1, r);
    } else {
        lemma_brace_rec_ok(m, stack, code, i + 1, r);
    }
}

/// Every table the bracket matcher accepts is sound: positions in range,
/// pairing symmetric, every backward jump recorded.
pub proof fn lemma_bracemap_ok(code: Seq<char>, m: Map<usize, usize>)
    requires
        code.len() <= usize::MAX,
        bracemap_of(code) == Some(m),
    ensures
        jumps_ok(code, m),
{
    lemma_brace_rec_ok(Map::empty(), Seq::empty(), code, 0, m);
}

/// The jump table is symmetric: wherever it sends `a` to `b`, it also
/// sends `b` back to `a`.
pub proof fn lemma_bracemap_symmetric(code: Seq<char>, m: Map<usize, usize>, a: usize, b: usize)
    requires
        code.len() <= usize::MAX,
        bracemap_of(code) == Some(m),
        m.contains_key(a),
        m[a] == b,
    ensures
        m.contains_key(b),
        m[b] == a,
{
    lemma_bracemap_ok(code, m);
}

/// The scan from position `i` fails exactly when some later backward jump
/// closes more forward jumps than are open there: position `j` holds `']'`
/// and the jumps still open at `j` (those on the stack plus those opened
/// and not closed in between) number none.
pub proof fn lemma_brace_rec_none(m: Map<usize, usize>, stack: Seq<usize>, code: Seq<char>, i: int)
    requires
        0 <= i <= code.len(),
    ensures
        (brace_rec(m, stack, code, i) is None) <==> exists|j: int|
            i <= j < code.len() && code[j] == ']' && stack.len() + depth(code, j) - depth(
                code,
                i,
            ) <= 0,
    decreases code.len() - i,
{
    if i >= code.len() {
    } else if code[i] == '[' {
        lemma_brace_rec_none(m, stack.push(i as usize), code, i + 1);
        assert(depth(code, i + 1) == depth(code, i) + 1);
        assert forall|j: int|
            i <= j < code.len() && code[j] == ']' && stack.len() + depth(code, j) - depth(
                code,
                i,
            ) <= 0 implies (brace_rec(m, stack, code, i) is None) by {
            assert(j != i);
            assert(stack.push(i as usize).len() + depth(code, j) - depth(code, i + 1) <= 0);
        }
    } else if code[i] == ']' {
        if stack.len() == 0 {
            assert(code[i] == ']' && stack.len() + depth(code, i) - depth(code, i) <= 0);
        } else {
            let m2 = m.insert(i as usize, stack.last()).insert(stack.last(), i as usize);
            lemma_brace_rec_none(m2, stack.drop_last(), code, i + 1);
            assert(depth(code, i + 1) == depth(code, i) - 1);
            assert forall|j: int|
                i <= j < code.len() && code[j] == ']' && stack.len() + depth(code, j) - depth(
                    code,
                    i,
                ) <= 0 implies (brace_rec(m, stack, code, i) is None) by {
                if j == i {
                    assert(stack.len() <= 0);
                    assert(false);
                } else {
                    assert(stack.drop_last().len() + depth(code, j) - depth(code, i + 1) <= 0);
                }
            }
        }
    } else {
        lemma_brace_rec_none(m, stack, code, i + 1);
        assert(depth(code, i + 1) == depth(code, i));
        assert forall|j: int|
            i <= j < code.len() && code[j] == ']' && stack.len() + depth(code, j) - depth(
                code,
                i,
            ) <= 0 implies (brace_rec(m, stack, code, i) is None) by {
            assert(j != i);
        }
    }
}

} // verus!
