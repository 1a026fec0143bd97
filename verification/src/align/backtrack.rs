//! Pointer decoding and backtracking: a stack-based depth-first traversal of
//! the pointer matrix that reconstructs aligned string pairs, branching
//! wherever several transitions tie for the optimum. One routine serves
//! global alignment (terminate at the origin) and one serves local alignment
//! (terminate where the score matrix reads zero); both yield every pending
//! branch when asked for all co-optimal alignments, or short-circuit after
//! the first.

use crate::align::dims_ok;
use crate::grid::grid_get;
use crate::grid::grid_view;
use crate::model::degap;
use crate::model::gap_char;
use crate::model::has_left;
use crate::model::has_match;
use crate::model::has_up;
use vstd::prelude::*;

verus! {

/// A pending branch of the traversal: the two reversed accumulators and the
/// matrix cell the walk has reached.
pub type Frame = (Vec<char>, Vec<char>, usize, usize);

/// A pending branch of the local traversal, carrying (in ghost state) the
/// seed cell the branch started from.
pub type LocalFrame = (Vec<char>, Vec<char>, usize, usize, Ghost<(usize, usize)>);

/// The rendering of one alignment: query row, newline, subject row.
pub open spec fn render(qa: Seq<char>, sa: Seq<char>) -> Seq<char> {
    qa + seq!['\n'] + sa
}

/// No symbol of the sequence is the gap marker.
pub open spec fn gap_free(x: Seq<char>) -> bool {
    forall|k: int| 0 <= k < x.len() ==> x[k] != gap_char()
}

/// `qa`/`sa` render a walk of the pointer matrix `p` from the origin to cell
/// (i, j): the last column is the transition that reached (i, j), flagged in
/// `p[i][j]`, and the rest is a walk to its predecessor. An empty rendering
/// is a walk exactly when it sits at the origin.
pub open spec fn global_trace(
    p: Seq<Seq<i32>>,
    q: Seq<char>,
    s: Seq<char>,
    qa: Seq<char>,
    sa: Seq<char>,
    i: int,
    j: int,
) -> bool
    decreases qa.len(),
{
    if qa.len() == 0 {
        sa.len() == 0 && i == 0 && j == 0
    } else if sa.len() == 0 {
        false
    } else {
        ||| (has_match(p[i][j] as int) && i > 0 && j > 0 && qa.last() == q[i - 1] && sa.last()
            == s[j - 1] && global_trace(p, q, s, qa.drop_last(), sa.drop_last(), i - 1, j - 1))
        ||| (has_up(p[i][j] as int) && i > 0 && qa.last() == q[i - 1] && sa.last() == gap_char()
            && global_trace(p, q, s, qa.drop_last(), sa.drop_last(), i - 1, j))
        ||| (has_left(p[i][j] as int) && j > 0 && qa.last() == gap_char() && sa.last() == s[j - 1]
            && global_trace(p, q, s, qa.drop_last(), sa.drop_last(), i, j - 1))
    }
}

/// `qa`/`sa` render a walk of the pointer matrix `p` that starts at some
/// cell where the score matrix `sm` reads zero and ends at cell (i, j),
/// never passing through another zero-score cell.
pub open spec fn local_trace(
    p: Seq<Seq<i32>>,
    sm: Seq<Seq<i32>>,
    q: Seq<char>,
    s: Seq<char>,
    qa: Seq<char>,
    sa: Seq<char>,
    i: int,
    j: int,
) -> bool
    decreases qa.len(),
{
    if qa.len() == 0 {
        sa.len() == 0 && sm[i][j] == 0
    } else if sa.len() == 0 {
        false
    } else {
        sm[i][j] != 0 && {
            ||| (has_match(p[i][j] as int) && i > 0 && j > 0 && qa.last() == q[i - 1] && sa.last()
                == s[j - 1] && local_trace(p, sm, q, s, qa.drop_last(), sa.drop_last(), i - 1, j - 1))
            ||| (has_up(p[i][j] as int) && i > 0 && qa.last() == q[i - 1] && sa.last() == gap_char()
                && local_trace(p, sm, q, s, qa.drop_last(), sa.drop_last(), i - 1, j))
            ||| (has_left(p[i][j] as int) && j > 0 && qa.last() == gap_char() && sa.last() == s[j
                - 1] && local_trace(p, sm, q, s, qa.drop_last(), sa.drop_last(), i, j - 1))
        }
    }
}

/// A rendered result of the global traversal over pointer matrix `p`.
pub open spec fn global_result_ok(r: Seq<char>, p: Seq<Seq<i32>>, q: Seq<char>, s: Seq<char>) -> bool {
    exists|qa: Seq<char>, sa: Seq<char>|
        r == #[trigger] render(qa, sa) && global_trace(p, q, s, qa, sa, q.len() as int, s.len() as int)
}

/// A rendered result of the local traversal: a walk ending at one of the
/// seed cells.
pub open spec fn local_result_ok(
    r: Seq<char>,
    p: Seq<Seq<i32>>,
    sm: Seq<Seq<i32>>,
    q: Seq<char>,
    s: Seq<char>,
    seeds: Seq<(usize, usize)>,
) -> bool {
    exists|qa: Seq<char>, sa: Seq<char>, t: int|
        #![trigger render(qa, sa), seeds[t]]
        r == render(qa, sa) && 0 <= t < seeds.len() && local_trace(
            p,
            sm,
            q,
            s,
            qa,
            sa,
            seeds[t].0 as int,
            seeds[t].1 as int,
        )
}

/// Every cell of the pointer matrix other than the origin records at least
/// one transition, and only transitions whose predecessor exists: nothing
/// points above row zero or left of column zero.
pub open spec fn global_ptr_wf(p: Seq<Seq<i32>>, rows: int, cols: int) -> bool {
    forall|i: int, j: int|
        0 <= i < rows && 0 <= j < cols && !(i == 0 && j == 0) ==> {
            let v = (#[trigger] p[i][j]) as int;
            &&& (has_match(v) ==> i > 0 && j > 0)
            &&& (has_up(v) ==> i > 0)
            &&& (has_left(v) ==> j > 0)
            &&& (has_match(v) || has_up(v) || has_left(v))
        }
}

/// Every cell where the score matrix is not zero records at least one
/// transition with an existing predecessor.
pub open spec fn local_ptr_wf(p: Seq<Seq<i32>>, sm: Seq<Seq<i32>>, rows: int, cols: int) -> bool {
    forall|i: int, j: int|
        0 <= i < rows && 0 <= j < cols && sm[i][j] != 0 ==> {
            let v = (#[trigger] p[i][j]) as int;
            &&& (has_match(v) ==> i > 0 && j > 0)
            &&& (has_up(v) ==> i > 0)
            &&& (has_left(v) ==> j > 0)
            &&& (has_match(v) || has_up(v) || has_left(v))
        }
}

/// A walk has rows of equal length, and stripping the gap markers from its
/// rows recovers exactly the consumed prefixes of the two sequences.
pub proof fn lemma_global_trace_shape(
    p: Seq<Seq<i32>>,
    q: Seq<char>,
    s: Seq<char>,
    qa: Seq<char>,
    sa: Seq<char>,
    i: int,
    j: int,
)
    requires
        global_trace(p, q, s, qa, sa, i, j),
        0 <= i <= q.len(),
        0 <= j <= s.len(),
        gap_free(q),
        gap_free(s),
    ensures
        qa.len() == sa.len(),
        degap(qa) == q.subrange(0, i),
        degap(sa) == s.subrange(0, j),
    decreases qa.len(),
{
    if qa.len() == 0 {
        assert(degap(qa) =~= q.subrange(0, 0));
        assert(degap(sa) =~= s.subrange(0, 0));
    } else {
        if has_match(p[i][j] as int) && i > 0 && j > 0 && qa.last() == q[i - 1] && sa.last() == s[j
            - 1] && global_trace(p, q, s, qa.drop_last(), sa.drop_last(), i - 1, j - 1) {
            lemma_global_trace_shape(p, q, s, qa.drop_last(), sa.drop_last(), i - 1, j - 1);
            assert(degap(qa) =~= q.subrange(0, i));
            assert(degap(sa) =~= s.subrange(0, j));
        } else if has_up(p[i][j] as int) && i > 0 && qa.last() == q[i - 1] && sa.last() == gap_char()
            && global_trace(p, q, s, qa.drop_last(), sa.drop_last(), i - 1, j) {
            lemma_global_trace_shape(p, q, s, qa.drop_last(), sa.drop_last(), i - 1, j);
            assert(degap(qa) =~= q.subrange(0, i));
        } else {
            lemma_global_trace_shape(p, q, s, qa.drop_last(), sa.drop_last(), i, j - 1);
            assert(degap(sa) =~= s.subrange(0, j));
        }
    }
}

/// A local walk has rows of equal length, and stripping the gap markers
/// recovers contiguous substrings of the two sequences ending at (i, j).
pub proof fn lemma_local_trace_shape(
    p: Seq<Seq<i32>>,
    sm: Seq<Seq<i32>>,
    q: Seq<char>,
    s: Seq<char>,
    qa: Seq<char>,
    sa: Seq<char>,
    i: int,
    j: int,
)
    requires
        local_trace(p, sm, q, s, qa, sa, i, j),
        0 <= i <= q.len(),
        0 <= j <= s.len(),
        gap_free(q),
        gap_free(s),
    ensures
        qa.len() == sa.len(),
        exists|i0: int, j0: int|
            #![trigger q.subrange(i0, i), s.subrange(j0, j)]
            0 <= i0 <= i && 0 <= j0 <= j && degap(qa) == q.subrange(i0, i) && degap(sa)
                == s.subrange(j0, j),
    decreases qa.len(),
{
    if qa.len() == 0 {
        assert(degap(qa) =~= q.subrange(i, i));
        assert(degap(sa) =~= s.subrange(j, j));
    } else {
        if has_match(p[i][j] as int) && i > 0 && j > 0 && qa.last() == q[i - 1] && sa.last() == s[j
            - 1] && local_trace(p, sm, q, s, qa.drop_last(), sa.drop_last(), i - 1, j - 1) {
            lemma_local_trace_shape(p, sm, q, s, qa.drop_last(), sa.drop_last(), i - 1, j - 1);
            let (i0, j0) = choose|i0: int, j0: int|
                #![trigger q.subrange(i0, i - 1), s.subrange(j0, j - 1)]
                0 <= i0 <= i - 1 && 0 <= j0 <= j - 1 && degap(qa.drop_last()) == q.subrange(
                    i0,
                    i - 1,
                ) && degap(sa.drop_last()) == s.subrange(j0, j - 1);
            assert(degap(qa) =~= q.subrange(i0, i));
            assert(degap(sa) =~= s.subrange(j0, j));
        } else if has_up(p[i][j] as int) && i > 0 && qa.last() == q[i - 1] && sa.last() == gap_char()
            && local_trace(p, sm, q, s, qa.drop_last(), sa.drop_last(), i - 1, j) {
            lemma_local_trace_shape(p, sm, q, s, qa.drop_last(), sa.drop_last(), i - 1, j);
            let (i0, j0) = choose|i0: int, j0: int|
                #![trigger q.subrange(i0, i - 1), s.subrange(j0, j)]
                0 <= i0 <= i - 1 && 0 <= j0 <= j && degap(qa.drop_last()) == q.subrange(i0, i - 1)
                    && degap(sa.drop_last()) == s.subrange(j0, j);
            assert(degap(qa) =~= q.subrange(i0, i));
            assert(degap(sa) == s.subrange(j0, j));
        } else {
            lemma_local_trace_shape(p, sm, q, s, qa.drop_last(), sa.drop_last(), i, j - 1);
            let (i0, j0) = choose|i0: int, j0: int|
                #![trigger q.subrange(i0, i), s.subrange(j0, j - 1)]
                0 <= i0 <= i && 0 <= j0 <= j - 1 && degap(qa.drop_last()) == q.subrange(i0, i)
                    && degap(sa.drop_last()) == s.subrange(j0, j - 1);
            assert(degap(qa) == q.subrange(i0, i));
            assert(degap(sa) =~= s.subrange(j0, j));
        }
    }
}

/// Four to the power `n`: the branching bound one traversal step can incur.
pub open spec fn pow4(n: nat) -> nat
    decreases n,
{
    if n == 0 {
        1
    } else {
        4 * pow4((n - 1) as nat)
    }
}

pub proof fn lemma_pow4_pos(n: nat)
    ensures
        pow4(n) >= 1,
    decreases n,
{
    if n > 0 {
        lemma_pow4_pos((n - 1) as nat);
    }
}

pub proof fn lemma_pow4_mono(m: nat, n: nat)
    requires
        m <= n,
    ensures
        pow4(m) <= pow4(n),
    decreases n,
{
    if m < n && n > 0 {
        lemma_pow4_mono(m, (n - 1) as nat);
        lemma_pow4_pos((n - 1) as nat);
    }
}

/// The termination measure of the traversal: the summed branching bound of
/// every pending frame.
pub open spec fn stack_potential(st: Seq<Frame>) -> nat
    decreases st.len(),
{
    if st.len() == 0 {
        0
    } else {
        stack_potential(st.drop_last()) + pow4((st.last().2 + st.last().3) as nat)
    }
}

pub proof fn lemma_potential_push(st: Seq<Frame>, f: Frame)
    ensures
        stack_potential(st.push(f)) == stack_potential(st) + pow4((f.2 + f.3) as nat),
{
    assert(st.push(f).drop_last() =~= st);
    assert(st.push(f).last() == f);
}

/// The termination measure of the local traversal.
pub open spec fn local_stack_potential(st: Seq<LocalFrame>) -> nat
    decreases st.len(),
{
    if st.len() == 0 {
        0
    } else {
        local_stack_potential(st.drop_last()) + pow4((st.last().2 + st.last().3) as nat)
    }
}

pub proof fn lemma_local_potential_push(st: Seq<LocalFrame>, f: LocalFrame)
    ensures
        local_stack_potential(st.push(f)) == local_stack_potential(st) + pow4((f.2 + f.3) as nat),
{
    assert(st.push(f).drop_last() =~= st);
    assert(st.push(f).last() == f);
}

/// Relies on `String::push`: appends the given character to the end of the
/// string.
#[verifier::external_body]
fn push_char(s: &mut String, c: char)
    ensures
        final(s)@ == old(s)@.push(c),
{
    s.push(c);
}

/// The characters of `v` in reverse order.
fn reversed(v: &Vec<char>) -> (r: Vec<char>)
    ensures
        r@ == v@.reverse(),
{
    let mut r: Vec<char> = Vec::new();
    let mut i: usize = 0;
    while i < v.len()
        invariant
            i <= v@.len(),
            r@.len() == i,
            forall|k: int| 0 <= k < i ==> r@[k] == v@[v@.len() - 1 - k],
        decreases v@.len() - i,
    {
        r.push(v[v.len() - 1 - i]);
        i = i + 1;
    }
    proof {
        assert(r@ =~= v@.reverse());
    }
    r
}

/// Joins the two accumulators, already reversed back into reading order,
/// into the rendered "query-line\nsubject-line" form.
fn render_pair(qa: &Vec<char>, sa: &Vec<char>) -> (r: String)
    ensures
        r@ == render(qa@.reverse(), sa@.reverse()),
{
    let rq = reversed(qa);
    let rs = reversed(sa);
    let mut out = String::new();
    let mut i: usize = 0;
    while i < rq.len()
        invariant
            i <= rq@.len(),
            out@ == rq@.subrange(0, i as int),
        decreases rq@.len() - i,
    {
        push_char(&mut out, rq[i]);
        i = i + 1;
    }
    proof {
        assert(rq@.subrange(0, rq@.len() as int) =~= rq@);
    }
    push_char(&mut out, '\n');
    let mut j: usize = 0;
    while j < rs.len()
        invariant
            j <= rs@.len(),
            out@ == rq@ + seq!['\n'] + rs@.subrange(0, j as int),
        decreases rs@.len() - j,
    {
        proof {
            assert((rq@ + seq!['\n'] + rs@.subrange(0, j as int)).push(rs@[j as int]) =~= rq@
                + seq!['\n'] + rs@.subrange(0, j as int + 1));
        }
        push_char(&mut out, rs[j]);
        j = j + 1;
    }
    proof {
        assert(out@ =~= render(rq@, rs@));
        assert(rq@ + seq!['\n'] =~= rq@ + seq!['\n'] + rs@.subrange(0, 0));
    }
    out
}

/// Whether a pointer value records the diagonal transition.
fn test_match(v: i32) -> (r: bool)
    ensures
        r == has_match(v as int),
{
    v == 2 || v == 5 || v == 6 || v == 9
}

/// Whether a pointer value records the up transition.
fn test_up(v: i32) -> (r: bool)
    ensures
        r == has_up(v as int),
{
    v == 3 || v == 5 || v == 7 || v == 9
}

/// Whether a pointer value records the left transition.
fn test_left(v: i32) -> (r: bool)
    ensures
        r == has_left(v as int),
{
    v == 4 || v == 6 || v == 7 || v == 9
}

/// A pending global frame composes: any walk reaching the frame's cell
/// extends, through the frame's accumulated columns, into a walk reaching
/// the traversal's start cell.
pub open spec fn frame_ok(p: Seq<Seq<i32>>, q: Seq<char>, s: Seq<char>, fr: Frame) -> bool {
    &&& fr.2 <= q.len()
    &&& fr.3 <= s.len()
    &&& forall|cqa: Seq<char>, csa: Seq<char>|
        #[trigger] global_trace(p, q, s, cqa, csa, fr.2 as int, fr.3 as int) ==> global_trace(
            p,
            q,
            s,
            cqa + fr.0@.reverse(),
            csa + fr.1@.reverse(),
            q.len() as int,
            s.len() as int,
        )
}

/// Reconstructs aligned string pairs from the pointer matrix by a
/// depth-first stack traversal seeded at the terminal cell. When
/// `all_alignments` is set every co-optimal branch is followed; otherwise
/// the first transition in match/up/left order is taken at each cell and
/// the remaining branches are discarded after the first rendered result.
#[verifier::loop_isolation(false)]
pub fn backtrack_global(
    query: &Vec<char>,
    subject: &Vec<char>,
    pm: &spindalis::utils::Arr2D<i32>,
    all_alignments: bool,
) -> (results: Vec<String>)
    requires
        dims_ok(grid_view(*pm), query@.len() + 1int, subject@.len() + 1int),
        global_ptr_wf(grid_view(*pm), query@.len() + 1int, subject@.len() + 1int),
    ensures
        forall|k: int|
            0 <= k < results@.len() ==> global_result_ok(
                (#[trigger] results@[k])@,
                grid_view(*pm),
                query@,
                subject@,
            ),
        results@.len() >= 1,
        !all_alignments ==> results@.len() == 1,
{
    let ghost p = grid_view(*pm);
    let ghost q = query@;
    let ghost s = subject@;
    let mut results: Vec<String> = Vec::new();
    let mut stack: Vec<Frame> = Vec::new();
    let seed: Frame = (Vec::new(), Vec::new(), query.len(), subject.len());
    proof {
        assert(seed.0@.reverse() =~= Seq::<char>::empty());
        assert(seed.1@.reverse() =~= Seq::<char>::empty());
        assert forall|cqa: Seq<char>, csa: Seq<char>|
            #[trigger] global_trace(p, q, s, cqa, csa, seed.2 as int, seed.3 as int) implies global_trace(
            p,
            q,
            s,
            cqa + seed.0@.reverse(),
            csa + seed.1@.reverse(),
            q.len() as int,
            s.len() as int,
        ) by {
            assert(cqa + seed.0@.reverse() =~= cqa);
            assert(csa + seed.1@.reverse() =~= csa);
        }
        lemma_potential_push(Seq::empty(), seed);
    }
    stack.push(seed);
    while stack.len() != 0
        invariant
            forall|t: int| 0 <= t < stack@.len() ==> frame_ok(p, q, s, #[trigger] stack@[t]),
            forall|k: int|
                0 <= k < results@.len() ==> global_result_ok(
                    (#[trigger] results@[k])@,
                    p,
                    q,
                    s,
                ),
            results@.len() + stack@.len() >= 1,
            !all_alignments ==> stack@.len() <= 1,
            !all_alignments ==> (results@.len() == 0 || (results@.len() == 1 && stack@.len()
                == 0)),
            all_alignments ==> results@.len() + stack@.len() >= 1,
        decreases stack_potential(stack@),
    {
        let ghost st_before = stack@;
        let popped = stack.pop();
        let (qa, sa, i, j) = match popped {
            Some(f) => f,
            None => {
                proof {
                    assert(false);
                }
                (Vec::new(), Vec::new(), 0, 0)
            },
        };
        let ghost fr = st_before.last();
        proof {
            assert(st_before.drop_last() == stack@);
            assert(frame_ok(p, q, s, fr));
            lemma_pow4_pos((fr.2 + fr.3) as nat);
        }
        if i == 0 && j == 0 {
            let rendered = render_pair(&qa, &sa);
            proof {
                let rqa = qa@.reverse();
                let rsa = sa@.reverse();
                assert(global_trace(p, q, s, Seq::<char>::empty(), Seq::<char>::empty(), 0, 0));
                assert(global_trace(
                    p,
                    q,
                    s,
                    Seq::<char>::empty() + rqa,
                    Seq::<char>::empty() + rsa,
                    q.len() as int,
                    s.len() as int,
                ));
                assert(Seq::<char>::empty() + rqa =~= rqa);
                assert(Seq::<char>::empty() + rsa =~= rsa);
                assert(rendered@ == render(rqa, rsa));
                assert(global_result_ok(rendered@, p, q, s));
            }
            results.push(rendered);
            if !all_alignments {
                stack.clear();
            }
        } else {
            let ghost k = (fr.2 + fr.3) as nat;
            let pv = grid_get(pm, i, j);
            let mut branched = false;
            if test_match(pv) {
                let mut nqa = clone_chars(&qa);
                nqa.push(query[i - 1]);
                let mut nsa = clone_chars(&sa);
                nsa.push(subject[j - 1]);
                let nf: Frame = (nqa, nsa, i - 1, j - 1);
                proof {
                    lemma_frame_step(p, q, s, fr, nf, 0);
                    lemma_potential_push(stack@, nf);
                    lemma_pow4_mono((nf.2 + nf.3) as nat, (k - 1) as nat);
                }
                stack.push(nf);
                branched = true;
            }
            if (all_alignments || !branched) && test_up(pv) {
                let mut nqa = clone_chars(&qa);
                nqa.push(query[i - 1]);
                let mut nsa = clone_chars(&sa);
                nsa.push('-');
                let nf: Frame = (nqa, nsa, i - 1, j);
                proof {
                    lemma_frame_step(p, q, s, fr, nf, 1);
                    lemma_potential_push(stack@, nf);
                    lemma_pow4_mono((nf.2 + nf.3) as nat, (k - 1) as nat);
                }
                stack.push(nf);
                branched = true;
            }
            if (all_alignments || !branched) && test_left(pv) {
                let mut nqa = clone_chars(&qa);
                nqa.push('-');
                let mut nsa = clone_chars(&sa);
                nsa.push(subject[j - 1]);
                let nf: Frame = (nqa, nsa, i, j - 1);
                proof {
                    lemma_frame_step(p, q, s, fr, nf, 2);
                    lemma_potential_push(stack@, nf);
                    lemma_pow4_mono((nf.2 + nf.3) as nat, (k - 1) as nat);
                }
                stack.push(nf);
                branched = true;
            }
            proof {
                assert(branched);
                lemma_pow4_pos((k - 1) as nat);
                assert(3 * pow4((k - 1) as nat) < pow4(k));
            }
        }
    }
    results
}

/// A copy of a character accumulator.
fn clone_chars(v: &Vec<char>) -> (r: Vec<char>)
    ensures
        r@ == v@,
{
    let mut r: Vec<char> = Vec::new();
    let mut i: usize = 0;
    while i < v.len()
        invariant
            i <= v@.len(),
            r@ == v@.subrange(0, i as int),
        decreases v@.len() - i,
    {
        r.push(v[i]);
        i = i + 1;
    }
    proof {
        assert(r@ =~= v@);
    }
    r
}

/// One traversal step preserves frame composition: extending the popped
/// frame `fr` by the transition `dir` (0 diagonal, 1 up, 2 left) yields a
/// frame that still composes into a walk from the traversal's start cell.
proof fn lemma_frame_step(
    p: Seq<Seq<i32>>,
    q: Seq<char>,
    s: Seq<char>,
    fr: Frame,
    nf: Frame,
    dir: int,
)
    requires
        frame_ok(p, q, s, fr),
        !(fr.2 == 0 && fr.3 == 0),
        dir == 0 ==> has_match(p[fr.2 as int][fr.3 as int] as int) && fr.2 > 0 && fr.3 > 0
            && nf.0@ == fr.0@.push(q[fr.2 - 1]) && nf.1@ == fr.1@.push(s[fr.3 - 1]) && nf.2 == fr.2
            - 1 && nf.3 == fr.3 - 1,
        dir == 1 ==> has_up(p[fr.2 as int][fr.3 as int] as int) && fr.2 > 0 && nf.0@ == fr.0@.push(
            q[fr.2 - 1],
        ) && nf.1@ == fr.1@.push(gap_char()) && nf.2 == fr.2 - 1 && nf.3 == fr.3,
        dir == 2 ==> has_left(p[fr.2 as int][fr.3 as int] as int) && fr.3 > 0 && nf.0@
            == fr.0@.push(gap_char()) && nf.1@ == fr.1@.push(s[fr.3 - 1]) && nf.2 == fr.2 && nf.3
            == fr.3 - 1,
        0 <= dir <= 2,
    ensures
        frame_ok(p, q, s, nf),
{
    let qc = if dir == 2 {
        gap_char()
    } else {
        q[fr.2 - 1]
    };
    let sc = if dir == 1 {
        gap_char()
    } else {
        s[fr.3 - 1]
    };
    assert forall|cqa: Seq<char>, csa: Seq<char>|
        #[trigger] global_trace(p, q, s, cqa, csa, nf.2 as int, nf.3 as int) implies global_trace(
        p,
        q,
        s,
        cqa + nf.0@.reverse(),
        csa + nf.1@.reverse(),
        q.len() as int,
        s.len() as int,
    ) by {
        let eqa = cqa.push(qc);
        let esa = csa.push(sc);
        assert(eqa.drop_last() =~= cqa);
        assert(esa.drop_last() =~= csa);
        assert(global_trace(p, q, s, eqa, esa, fr.2 as int, fr.3 as int));
        assert(global_trace(
            p,
            q,
            s,
            eqa + fr.0@.reverse(),
            esa + fr.1@.reverse(),
            q.len() as int,
            s.len() as int,
        ));
        assert(eqa + fr.0@.reverse() =~= cqa + nf.0@.reverse());
        assert(esa + fr.1@.reverse() =~= csa + nf.1@.reverse());
    }
}


/// A pending local frame composes: any walk reaching the frame's cell
/// extends, through the frame's accumulated columns, into a walk ending at
/// the frame's seed cell, which is one of the traversal's seeds.
pub open spec fn local_frame_ok(
    p: Seq<Seq<i32>>,
    sm: Seq<Seq<i32>>,
    q: Seq<char>,
    s: Seq<char>,
    seeds: Seq<(usize, usize)>,
    fr: LocalFrame,
) -> bool {
    &&& fr.2 <= q.len()
    &&& fr.3 <= s.len()
    &&& exists|t: int| 0 <= t < seeds.len() && #[trigger] seeds[t] == fr.4@
    &&& forall|cqa: Seq<char>, csa: Seq<char>|
        #[trigger] local_trace(p, sm, q, s, cqa, csa, fr.2 as int, fr.3 as int) ==> local_trace(
            p,
            sm,
            q,
            s,
            cqa + fr.0@.reverse(),
            csa + fr.1@.reverse(),
            fr.4@.0 as int,
            fr.4@.1 as int,
        )
}

/// One local traversal step preserves frame composition.
proof fn lemma_local_frame_step(
    p: Seq<Seq<i32>>,
    sm: Seq<Seq<i32>>,
    q: Seq<char>,
    s: Seq<char>,
    seeds: Seq<(usize, usize)>,
    fr: LocalFrame,
    nf: LocalFrame,
    dir: int,
)
    requires
        local_frame_ok(p, sm, q, s, seeds, fr),
        sm[fr.2 as int][fr.3 as int] != 0,
        nf.4 == fr.4,
        dir == 0 ==> has_match(p[fr.2 as int][fr.3 as int] as int) && fr.2 > 0 && fr.3 > 0
            && nf.0@ == fr.0@.push(q[fr.2 - 1]) && nf.1@ == fr.1@.push(s[fr.3 - 1]) && nf.2 == fr.2
            - 1 && nf.3 == fr.3 - 1,
        dir == 1 ==> has_up(p[fr.2 as int][fr.3 as int] as int) && fr.2 > 0 && nf.0@ == fr.0@.push(
            q[fr.2 - 1],
        ) && nf.1@ == fr.1@.push(gap_char()) && nf.2 == fr.2 - 1 && nf.3 == fr.3,
        dir == 2 ==> has_left(p[fr.2 as int][fr.3 as int] as int) && fr.3 > 0 && nf.0@
            == fr.0@.push(gap_char()) && nf.1@ == fr.1@.push(s[fr.3 - 1]) && nf.2 == fr.2 && nf.3
            == fr.3 - 1,
        0 <= dir <= 2,
    ensures
        local_frame_ok(p, sm, q, s, seeds, nf),
{
    let qc = if dir == 2 {
        gap_char()
    } else {
        q[fr.2 - 1]
    };
    let sc = if dir == 1 {
        gap_char()
    } else {
        s[fr.3 - 1]
    };
    assert forall|cqa: Seq<char>, csa: Seq<char>|
        #[trigger] local_trace(p, sm, q, s, cqa, csa, nf.2 as int, nf.3 as int) implies local_trace(
        p,
        sm,
        q,
        s,
        cqa + nf.0@.reverse(),
        csa + nf.1@.reverse(),
        nf.4@.0 as int,
        nf.4@.1 as int,
    ) by {
        let eqa = cqa.push(qc);
        let esa = csa.push(sc);
        assert(eqa.drop_last() =~= cqa);
        assert(esa.drop_last() =~= csa);
        assert(local_trace(p, sm, q, s, eqa, esa, fr.2 as int, fr.3 as int));
        assert(local_trace(
            p,
            sm,
            q,
            s,
            eqa + fr.0@.reverse(),
            esa + fr.1@.reverse(),
            fr.4@.0 as int,
            fr.4@.1 as int,
        ));
        assert(eqa + fr.0@.reverse() =~= cqa + nf.0@.reverse());
        assert(esa + fr.1@.reverse() =~= csa + nf.1@.reverse());
    }
}

/// Reconstructs aligned string pairs for local alignment: one traversal
/// branch per seed cell, each walked until the score matrix reads zero.
/// With no seeds there is nothing to yield; otherwise the short-circuit and
/// branching behaviour match the global traversal.
#[verifier::loop_isolation(false)]
pub fn backtrack_local(
    query: &Vec<char>,
    subject: &Vec<char>,
    pm: &spindalis::utils::Arr2D<i32>,
    sm: &spindalis::utils::Arr2D<i32>,
    seeds: &Vec<(usize, usize)>,
    all_alignments: bool,
) -> (results: Vec<String>)
    requires
        dims_ok(grid_view(*pm), query@.len() + 1int, subject@.len() + 1int),
        dims_ok(grid_view(*sm), query@.len() + 1int, subject@.len() + 1int),
        local_ptr_wf(grid_view(*pm), grid_view(*sm), query@.len() + 1int, subject@.len() + 1int),
        forall|t: int|
            0 <= t < seeds@.len() ==> (#[trigger] seeds@[t]).0 <= query@.len() && seeds@[t].1
                <= subject@.len(),
    ensures
        forall|k: int|
            0 <= k < results@.len() ==> local_result_ok(
                (#[trigger] results@[k])@,
                grid_view(*pm),
                grid_view(*sm),
                query@,
                subject@,
                seeds@,
            ),
        seeds@.len() == 0 ==> results@.len() == 0,
        seeds@.len() >= 1 ==> results@.len() >= 1,
        !all_alignments ==> results@.len() <= 1,
{
    let ghost p = grid_view(*pm);
    let ghost smv = grid_view(*sm);
    let ghost q = query@;
    let ghost s = subject@;
    let mut results: Vec<String> = Vec::new();
    let mut stack: Vec<LocalFrame> = Vec::new();
    let mut t: usize = 0;
    while t < seeds.len()
        invariant
            t <= seeds@.len(),
            stack@.len() == t,
            forall|u: int|
                0 <= u < t ==> local_frame_ok(p, smv, q, s, seeds@, #[trigger] stack@[u]),
        decreases seeds@.len() - t,
    {
        let (si, sj) = seeds[t];
        let f: LocalFrame = (Vec::new(), Vec::new(), si, sj, Ghost((si, sj)));
        proof {
            assert(f.0@.reverse() =~= Seq::<char>::empty());
            assert(f.1@.reverse() =~= Seq::<char>::empty());
            assert(seeds@[t as int] == f.4@);
            assert forall|cqa: Seq<char>, csa: Seq<char>|
                #[trigger] local_trace(p, smv, q, s, cqa, csa, f.2 as int, f.3 as int) implies local_trace(
                p,
                smv,
                q,
                s,
                cqa + f.0@.reverse(),
                csa + f.1@.reverse(),
                f.4@.0 as int,
                f.4@.1 as int,
            ) by {
                assert(cqa + f.0@.reverse() =~= cqa);
                assert(csa + f.1@.reverse() =~= csa);
            }
        }
        stack.push(f);
        t = t + 1;
    }
    while stack.len() != 0
        invariant
            forall|u: int|
                0 <= u < stack@.len() ==> local_frame_ok(p, smv, q, s, seeds@, #[trigger] stack@[u]),
            forall|k: int|
                0 <= k < results@.len() ==> local_result_ok(
                    (#[trigger] results@[k])@,
                    p,
                    smv,
                    q,
                    s,
                    seeds@,
                ),
            seeds@.len() == 0 ==> results@.len() == 0 && stack@.len() == 0,
            seeds@.len() >= 1 ==> results@.len() + stack@.len() >= 1,
            !all_alignments ==> results@.len() <= 1,
            !all_alignments ==> (results@.len() == 0 || stack@.len() == 0),
        decreases local_stack_potential(stack@),
    {
        let ghost st_before = stack@;
        let popped = stack.pop();
        let (qa, sa, i, j) = match popped {
            Some(f) => (f.0, f.1, f.2, f.3),
            None => {
                proof {
                    assert(false);
                }
                (Vec::new(), Vec::new(), 0, 0)
            },
        };
        let ghost fr = st_before.last();
        proof {
            assert(st_before.drop_last() == stack@);
            assert(local_frame_ok(p, smv, q, s, seeds@, fr));
            lemma_pow4_pos((fr.2 + fr.3) as nat);
        }
        let cell_score = grid_get(sm, i, j);
        if cell_score == 0 {
            let rendered = render_pair(&qa, &sa);
            proof {
                let rqa = qa@.reverse();
                let rsa = sa@.reverse();
                assert(local_trace(p, smv, q, s, Seq::<char>::empty(), Seq::<char>::empty(),
                    i as int, j as int));
                assert(local_trace(
                    p,
                    smv,
                    q,
                    s,
                    Seq::<char>::empty() + rqa,
                    Seq::<char>::empty() + rsa,
                    fr.4@.0 as int,
                    fr.4@.1 as int,
                ));
                assert(Seq::<char>::empty() + rqa =~= rqa);
                assert(Seq::<char>::empty() + rsa =~= rsa);
                assert(rendered@ == render(rqa, rsa));
                let wt = choose|u: int| 0 <= u < seeds@.len() && #[trigger] seeds@[u] == fr.4@;
                assert(local_result_ok(rendered@, p, smv, q, s, seeds@));
            }
            results.push(rendered);
            if !all_alignments {
                stack.clear();
            }
        } else {
            let ghost k = (fr.2 + fr.3) as nat;
            let pv = grid_get(pm, i, j);
            let mut branched = false;
            if test_match(pv) {
                let mut nqa = clone_chars(&qa);
                nqa.push(query[i - 1]);
                let mut nsa = clone_chars(&sa);
                nsa.push(subject[j - 1]);
                let nf: LocalFrame = (nqa, nsa, i - 1, j - 1, Ghost(fr.4@));
                proof {
                    lemma_local_frame_step(p, smv, q, s, seeds@, fr, nf, 0);
                    lemma_local_potential_push(stack@, nf);
                    lemma_pow4_mono((nf.2 + nf.3) as nat, (k - 1) as nat);
                }
                stack.push(nf);
                branched = true;
            }
            if (all_alignments || !branched) && test_up(pv) {
                let mut nqa = clone_chars(&qa);
                nqa.push(query[i - 1]);
                let mut nsa = clone_chars(&sa);
                nsa.push('-');
                let nf: LocalFrame = (nqa, nsa, i - 1, j, Ghost(fr.4@));
                proof {
                    lemma_local_frame_step(p, smv, q, s, seeds@, fr, nf, 1);
                    lemma_local_potential_push(stack@, nf);
                    lemma_pow4_mono((nf.2 + nf.3) as nat, (k - 1) as nat);
                }
                stack.push(nf);
                branched = true;
            }
            if (all_alignments || !branched) && test_left(pv) {
                let mut nqa = clone_chars(&qa);
                nqa.push('-');
                let mut nsa = clone_chars(&sa);
                nsa.push(subject[j - 1]);
                let nf: LocalFrame = (nqa, nsa, i, j - 1, Ghost(fr.4@));
                proof {
                    lemma_local_frame_step(p, smv, q, s, seeds@, fr, nf, 2);
                    lemma_local_potential_push(stack@, nf);
                    lemma_pow4_mono((nf.2 + nf.3) as nat, (k - 1) as nat);
                }
                stack.push(nf);
                branched = true;
            }
            proof {
                assert(branched);
                lemma_pow4_pos((k - 1) as nat);
                assert(3 * pow4((k - 1) as nat) < pow4(k));
            }
        }
    }
    results
}

} // verus!
