//! Hysteresis linking: dual-threshold classification into none/weak/strong,
//! then promotion of every weak pixel transitively 8-connected to a strong
//! pixel, by an explicit work-list flood fill rather than recursion.
//!
//! The final edge set is exactly the set of pixels that are strong by
//! threshold or joined to one through a chain of weak pixels.

use vstd::prelude::*;
use crate::grid::{adj8, as_ints, interior};

verus! {

/// Tri-state classification by dual thresholds: 2 (strong) for interior
/// pixels at or above `high`, 1 (weak) for interior pixels at or above
/// `low`, 0 (none) otherwise.  Border pixels are always 0.
pub open spec fn classify_spec(nms: Seq<int>, w: int, h: int, high: int, low: int) -> Seq<u8> {
    Seq::new((w * h) as nat, |i: int| if !interior(w, h, i) {
        0u8
    } else if nms[i] >= high {
        2u8
    } else if nms[i] >= low {
        1u8
    } else {
        0u8
    })
}

/// The pixel at `i` joins the edge set within `k` promotion steps: it is
/// classified strong, or is weak and 8-adjacent to a pixel that joins
/// within `k - 1` steps.
pub open spec fn linked_within(cls: Seq<u8>, w: int, h: int, i: int, k: nat) -> bool
    decreases k,
{
    if cls[i] == 2 {
        true
    } else if k == 0 {
        false
    } else {
        cls[i] == 1 && exists|j: int| adj8(w, h, i, j) && linked_within(cls, w, h, j, (k - 1) as nat)
    }
}

/// The pixel at `i` belongs to the final edge set: strong by threshold, or
/// 8-connected through a chain of weak pixels to a strong pixel.
pub open spec fn edge_linked(cls: Seq<u8>, w: int, h: int, i: int) -> bool {
    exists|k: nat| linked_within(cls, w, h, i, k)
}

/// Number of weak pixels among the first `n` entries of a classification.
pub open spec fn weak_count(s: Seq<u8>, n: int) -> nat
    decreases n,
{
    if n <= 0 {
        0
    } else {
        weak_count(s, n - 1) + if s[n - 1] == 1 {
            1nat
        } else {
            0nat
        }
    }
}

/// `weak_count` reads only the first `n` entries.
proof fn lemma_weak_count_congruent(s: Seq<u8>, t: Seq<u8>, n: int)
    requires
        forall|i: int| 0 <= i < n ==> s[i] == t[i],
    ensures
        weak_count(s, n) == weak_count(t, n),
    decreases n,
{
    if n > 0 {
        lemma_weak_count_congruent(s, t, n - 1);
    }
}

/// Promoting one weak pixel to strong lowers the weak count by one.
proof fn lemma_weak_count_update(s: Seq<u8>, j: int, n: int)
    requires
        0 <= j < n <= s.len(),
        s[j] == 1,
    ensures
        weak_count(s.update(j, 2), n) + 1 == weak_count(s, n),
    decreases n,
{
    if j == n - 1 {
        assert(s.update(j, 2u8)[n - 1] == 2u8);
        lemma_weak_count_congruent(s, s.update(j, 2u8), n - 1);
        assert(weak_count(s.update(j, 2u8), n - 1) == weak_count(s, n - 1));
        assert(weak_count(s, n) == weak_count(s, n - 1) + 1);
        assert(weak_count(s.update(j, 2u8), n) == weak_count(s.update(j, 2u8), n - 1));
    } else {
        lemma_weak_count_update(s, j, n - 1);
        assert(s.update(j, 2u8)[n - 1] == s[n - 1]);
        assert(weak_count(s.update(j, 2u8), n) + 1 == weak_count(s, n));
    }
}

/// In a settled state (no weak pixel borders a strong one, strong pixels
/// include every classified-strong pixel, weak pixels were classified
/// weak), every linked pixel has been promoted to strong.
proof fn lemma_linked_promoted(cls: Seq<u8>, st: Seq<u8>, w: int, h: int, i: int, k: nat)
    requires
        cls.len() == w * h,
        st.len() == w * h,
        forall|t: int| 0 <= t < w * h ==> st[t] == cls[t] || (cls[t] == 1 && #[trigger] st[t] == 2),
        forall|t: int, j: int| 0 <= t < w * h && st[t] == 2 && #[trigger] adj8(w, h, t, j) ==> st[j] != 1,
        0 <= i < w * h,
        linked_within(cls, w, h, i, k),
    ensures
        st[i] == 2,
    decreases k,
{
    if cls[i] == 2 {
        assert(st[i] == 2);
    } else {
        let j = choose|j: int| adj8(w, h, i, j) && linked_within(cls, w, h, j, (k - 1) as nat);
        lemma_linked_promoted(cls, st, w, h, j, (k - 1) as nat);
        assert(adj8(w, h, j, i));
        assert(st[i] != 1);
    }
}

/// No edge pixel sits below the low threshold: a pixel linked into the
/// edge set is interior and its suppressed value reaches at least `low`
/// (and at least `high` when it is strong by threshold itself).
pub proof fn lemma_edge_linked_above_low(nms: Seq<int>, w: int, h: int, high: int, low: int, i: int)
    requires
        low <= high,
        0 <= i < w * h,
        edge_linked(classify_spec(nms, w, h, high, low), w, h, i),
    ensures
        interior(w, h, i),
        nms[i] >= low,
{
    let cls = classify_spec(nms, w, h, high, low);
    let k = choose|k: nat| linked_within(cls, w, h, i, k);
    if cls[i] == 2 {
        assert(interior(w, h, i) && nms[i] >= high);
    } else {
        assert(cls[i] == 1);
        assert(interior(w, h, i) && nms[i] >= low);
    }
}

/// Classifies every pixel of the suppressed field by the two thresholds and
/// promotes weak pixels transitively 8-connected to strong ones.  The
/// result is true exactly on pixels strong by threshold or linked to one
/// through a chain of weak pixels; in particular every true pixel is at or
/// above the low threshold and no border pixel is ever true.
#[verifier::rlimit(30)]
pub fn double_threshold_and_hysteresis_abs(nms: &Vec<i64>, width: usize, height: usize, high: i64, low: i64) -> (edges: Vec<bool>)
    requires
        3 <= width,
        3 <= height,
        nms@.len() == width * height,
        0 <= low <= high,
    ensures
        edges@.len() == width * height,
        forall|i: int| 0 <= i < edges@.len() ==> edges@[i] == edge_linked(
            classify_spec(as_ints(nms@), width as int, height as int, high as int, low as int),
            width as int,
            height as int,
            i,
        ),
{
    let ghost w = width as int;
    let ghost h = height as int;
    let n = nms.len();

    // Step 1: classify.
    let mut state: Vec<u8> = Vec::new();
    let mut i: usize = 0;
    while i < n
        invariant
            3 <= width,
            3 <= height,
            n == width * height,
            nms@.len() == n,
            w == width as int,
            h == height as int,
            i <= n,
            state@.len() == i,
            forall|t: int| 0 <= t < i ==> state@[t] == classify_spec(as_ints(nms@), w, h, high as int, low as int)[t],
        decreases n - i,
    {
        let x = i % width;
        let y = i / width;
        proof {
            vstd::arithmetic::div_mod::lemma_fundamental_div_mod(i as int, w);
            assert((i as int) / w < h) by (nonlinear_arith)
                requires
                    (i as int) == w * ((i as int) / w) + (i as int) % w,
                    0 <= (i as int) % w < w,
                    0 <= (i as int) < w * h,
                    1 <= w,
                    1 <= h;
        }
        let v = nms[i];
        let c: u8 = if !(1 <= x && x < width - 1 && 1 <= y && y < height - 1) {
            0
        } else if v >= high {
            2
        } else if v >= low {
            1
        } else {
            0
        };
        state.push(c);
        i = i + 1;
    }
    let ghost cls = classify_spec(as_ints(nms@), w, h, high as int, low as int);
    proof {
        assert(state@ =~= cls);
    }

    // Step 2: seed the work list with every strong pixel.
    let mut stack: Vec<usize> = Vec::new();
    let mut i: usize = 0;
    while i < n
        invariant
            n == width * height,
            state@.len() == n,
            i <= n,
            forall|s: int| 0 <= s < stack@.len() ==> (#[trigger] stack@[s] as int) < n && state@[stack@[s] as int] == 2,
            forall|t: int| 0 <= t < i && #[trigger] state@[t] == 2 ==> stack@.contains(t as usize),
        decreases n - i,
    {
        let ghost stack_pre = stack@;
        if state[i] == 2 {
            stack.push(i);
        }
        proof {
            assert forall|t: int| 0 <= t < i + 1 && #[trigger] state@[t] == 2 implies stack@.contains(t as usize) by {
                if t == i as int {
                    assert(stack@[stack@.len() - 1] == i);
                } else {
                    assert(stack_pre.contains(t as usize));
                    let s = choose|s: int| 0 <= s < stack_pre.len() && stack_pre[s] == t as usize;
                    assert(stack@[s] == t as usize);
                }
            }
        }
        i = i + 1;
    }

    // Step 3: promote weak neighbours of strong pixels until settled.
    proof {
        assert forall|t: int| 0 <= t < n && #[trigger] state@[t] == 2 implies edge_linked(cls, w, h, t) by {
            assert(linked_within(cls, w, h, t, 0));
        }
    }
    while stack.len() > 0
        invariant
            3 <= width,
            3 <= height,
            n == width * height,
            w == width as int,
            h == height as int,
            cls == classify_spec(as_ints(nms@), w, h, high as int, low as int),
            cls.len() == n,
            state@.len() == n,
            forall|t: int| 0 <= t < n ==> state@[t] == cls[t] || (cls[t] == 1 && #[trigger] state@[t] == 2),
            forall|t: int| 0 <= t < n && #[trigger] state@[t] == 2 ==> edge_linked(cls, w, h, t),
            forall|s: int| 0 <= s < stack@.len() ==> (#[trigger] stack@[s] as int) < n && state@[stack@[s] as int] == 2,
            forall|t: int| 0 <= t < n && #[trigger] state@[t] == 2 ==> stack@.contains(t as usize) || (forall|j: int| #[trigger] adj8(w, h, t, j) ==> state@[j] != 1),
        decreases weak_count(state@, n as int) + stack@.len(),
    {
        let ghost state0 = state@;
        let ghost stack0 = stack@;
        let i = stack.pop().unwrap();
        let ghost stack1 = stack@;
        assert(state@[i as int] == 2);
        // A strong pixel is never on the border, so all eight neighbours exist.
        assert(cls[i as int] == 2 || cls[i as int] == 1);
        assert(interior(w, h, i as int));
        let x = i % width;
        let y = i / width;
        proof {
            vstd::arithmetic::div_mod::lemma_fundamental_div_mod(i as int, w);
            assert((y as int + 1) * w + (x as int) + 1 < w * h) by (nonlinear_arith)
                requires
                    0 <= (x as int) < w - 1,
                    0 <= (y as int) < h - 1,
                    1 <= w;
            assert((y as int - 1) * w <= (y as int) * w && (y as int) * w <= (y as int + 1) * w) by (nonlinear_arith)
                requires 1 <= (y as int), 1 <= w;
        }
        let n0 = (y - 1) * width + x - 1;
        let n1 = (y - 1) * width + x;
        let n2 = (y - 1) * width + x + 1;
        let n3 = y * width + x - 1;
        let n4 = y * width + x + 1;
        let n5 = (y + 1) * width + x - 1;
        let n6 = (y + 1) * width + x;
        let n7 = (y + 1) * width + x + 1;
        proof {
            lemma_row_col(w, x as int - 1, y as int - 1);
            lemma_row_col(w, x as int, y as int - 1);
            lemma_row_col(w, x as int + 1, y as int - 1);
            lemma_row_col(w, x as int - 1, y as int);
            lemma_row_col(w, x as int + 1, y as int);
            lemma_row_col(w, x as int - 1, y as int + 1);
            lemma_row_col(w, x as int, y as int + 1);
            lemma_row_col(w, x as int + 1, y as int + 1);
        }
        promote(&mut state, &mut stack, n0, Ghost(cls), Ghost(w), Ghost(h), Ghost(i as int));
        promote(&mut state, &mut stack, n1, Ghost(cls), Ghost(w), Ghost(h), Ghost(i as int));
        promote(&mut state, &mut stack, n2, Ghost(cls), Ghost(w), Ghost(h), Ghost(i as int));
        promote(&mut state, &mut stack, n3, Ghost(cls), Ghost(w), Ghost(h), Ghost(i as int));
        promote(&mut state, &mut stack, n4, Ghost(cls), Ghost(w), Ghost(h), Ghost(i as int));
        promote(&mut state, &mut stack, n5, Ghost(cls), Ghost(w), Ghost(h), Ghost(i as int));
        promote(&mut state, &mut stack, n6, Ghost(cls), Ghost(w), Ghost(h), Ghost(i as int));
        promote(&mut state, &mut stack, n7, Ghost(cls), Ghost(w), Ghost(h), Ghost(i as int));
        proof {
            // Every pixel adjacent to i is one of the eight computed
            // neighbours, and none of them is still weak.
            assert forall|j: int| #[trigger] adj8(w, h, i as int, j) implies state@[j] != 1 by {
                vstd::arithmetic::div_mod::lemma_fundamental_div_mod(j, w);
                assert(j == w * (j / w) + j % w);
                assert(j == (j / w) * w + j % w) by (nonlinear_arith)
                    requires j == w * (j / w) + j % w;
                assert(j % w == x as int - 1 || j % w == x as int || j % w == x as int + 1);
                assert(j / w == y as int - 1 || j / w == y as int || j / w == y as int + 1);
            }
            // The work-list frontier invariant survives the pop: promoted
            // pixels were pushed, and stack membership of every other
            // strong pixel is preserved because the stack only lost its
            // last entry, whose neighbours are now all non-weak.
            assert forall|t: int| 0 <= t < n && #[trigger] state@[t] == 2 implies stack@.contains(t as usize) || (forall|j: int| #[trigger] adj8(w, h, t, j) ==> state@[j] != 1) by {
                if t == i as int {
                } else if state0[t] == 2 {
                    if stack0.contains(t as usize) {
                        let s = choose|s: int| 0 <= s < stack0.len() && stack0[s] == t as usize;
                        if s < stack0.len() - 1 {
                            lemma_contains_after(stack0, stack1, s, t as usize);
                            assert(stack@.contains(t as usize));
                        } else {
                            assert(t == i as int);
                        }
                    } else {
                        assert forall|j: int| #[trigger] adj8(w, h, t, j) implies state@[j] != 1 by {
                            assert(state0[j] != 1);
                        }
                    }
                } else {
                    // Promoted during this iteration, hence pushed.
                    assert(stack@.contains(t as usize));
                }
            }
        }
    }

    // Step 4: the settled strong set is the edge mask.
    proof {
        assert forall|t: int| 0 <= t < n && !(state@[t] == 2) implies !edge_linked(cls, w, h, t) by {
            if edge_linked(cls, w, h, t) {
                let k = choose|k: nat| linked_within(cls, w, h, t, k);
                lemma_linked_promoted(cls, state@, w, h, t, k);
            }
        }
    }
    let mut edges: Vec<bool> = Vec::new();
    let mut i: usize = 0;
    while i < n
        invariant
            n == width * height,
            state@.len() == n,
            i <= n,
            edges@.len() == i,
            forall|t: int| 0 <= t < n ==> (state@[t] == 2) == edge_linked(cls, w, h, t),
            cls == classify_spec(as_ints(nms@), w, h, high as int, low as int),
            w == width as int,
            h == height as int,
            forall|t: int| 0 <= t < i ==> edges@[t] == edge_linked(cls, w, h, t),
        decreases n - i,
    {
        edges.push(state[i] == 2);
        i = i + 1;
    }
    edges
}

/// A row/column pair addresses the expected linear index.
proof fn lemma_row_col(w: int, x: int, y: int)
    requires
        0 <= x < w,
        0 <= y,
    ensures
        (y * w + x) / w == y,
        (y * w + x) % w == x,
{
    vstd::arithmetic::div_mod::lemma_fundamental_div_mod_converse(y * w + x, w, y, x);
}

/// An element below the popped top of the work list is still present.
proof fn lemma_contains_after(before: Seq<usize>, after: Seq<usize>, s: int, v: usize)
    requires
        after.len() + 1 == before.len(),
        forall|t: int| 0 <= t < after.len() ==> after[t] == before[t],
        0 <= s < before.len() - 1,
        before[s] == v,
    ensures
        after.contains(v),
{
    assert(after[s] == v);
}

/// Promotes the pixel at `j` if it is weak: it becomes strong and joins the
/// work list.  Otherwise nothing changes.  The pixel at `src` is a strong,
/// already-linked 8-neighbour of `j`, which keeps the promotion sound.
fn promote(state: &mut Vec<u8>, stack: &mut Vec<usize>, j: usize, Ghost(cls): Ghost<Seq<u8>>, Ghost(w): Ghost<int>, Ghost(h): Ghost<int>, Ghost(src): Ghost<int>)
    requires
        old(state)@.len() == w * h,
        cls.len() == w * h,
        (j as int) < w * h,
        0 <= src < w * h,
        adj8(w, h, src, j as int),
        old(state)@[src as int] == 2,
        forall|t: int| 0 <= t < w * h ==> old(state)@[t] == cls[t] || (cls[t] == 1 && #[trigger] old(state)@[t] == 2),
        forall|t: int| 0 <= t < w * h && #[trigger] old(state)@[t] == 2 ==> edge_linked(cls, w, h, t),
        forall|s: int| 0 <= s < old(stack)@.len() ==> (#[trigger] old(stack)@[s] as int) < w * h && old(state)@[old(stack)@[s] as int] == 2,
    ensures
        final(state)@.len() == w * h,
        forall|t: int| 0 <= t < w * h ==> final(state)@[t] == cls[t] || (cls[t] == 1 && #[trigger] final(state)@[t] == 2),
        forall|t: int| 0 <= t < w * h && #[trigger] final(state)@[t] == 2 ==> edge_linked(cls, w, h, t),
        forall|s: int| 0 <= s < final(stack)@.len() ==> (#[trigger] final(stack)@[s] as int) < w * h && final(state)@[final(stack)@[s] as int] == 2,
        old(state)@[j as int] != 1 ==> final(state)@ == old(state)@ && final(stack)@ == old(stack)@,
        old(state)@[j as int] == 1 ==> final(state)@ == old(state)@.update(j as int, 2u8) && final(stack)@ == old(stack)@.push(j),
        weak_count(final(state)@, w * h) + final(stack)@.len() == weak_count(old(state)@, w * h) + old(stack)@.len(),
        forall|t: int| 0 <= t < w * h && old(state)@[t] == 2 ==> #[trigger] final(state)@[t] == 2,
        forall|t: int| 0 <= t < w * h && old(state)@[t] != 1 ==> #[trigger] final(state)@[t] == old(state)@[t],
        forall|v: usize| old(stack)@.contains(v) ==> #[trigger] final(stack)@.contains(v),
        forall|t: int| 0 <= t < w * h && #[trigger] final(state)@[t] == 2 ==> old(state)@[t] == 2 || final(stack)@.contains(t as usize),
{
    if state[j] == 1 {
        state[j] = 2;
        stack.push(j);
        proof {
            assert(cls[j as int] == 1);
            let k = choose|k: nat| linked_within(cls, w, h, src, k);
            assert(adj8(w, h, j as int, src));
            assert(linked_within(cls, w, h, j as int, k + 1));
            lemma_weak_count_update(old(state)@, j as int, w * h);
            assert forall|v: usize| old(stack)@.contains(v) implies #[trigger] stack@.contains(v) by {
                let s = choose|s: int| 0 <= s < old(stack)@.len() && old(stack)@[s] == v;
                assert(stack@[s] == v);
            }
            assert(stack@[stack@.len() - 1] == j);
        }
    }
}

} // verus!
