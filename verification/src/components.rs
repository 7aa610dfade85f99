//! Connected groups of active cells in a row-major grid (4-neighbourhood), as
//! gathered by the visual detector before it scores person candidates.

use vstd::prelude::*;

verus! {

/// Extent and size of one connected group of active cells.
#[derive(Clone, Copy, Debug, PartialEq, Eq, Structural)]
pub struct ComponentBounds {
    pub min_x: usize,
    pub min_y: usize,
    pub max_x: usize,
    pub max_y: usize,
    pub cells: usize,
}

/// Whether `c` indexes a cell of a `gw` x `gh` grid.
pub open spec fn in_grid(gw: nat, gh: nat, c: int) -> bool {
    0 <= c < gw * gh
}

/// Column of cell `c`.
pub open spec fn col(gw: nat, c: int) -> int {
    c % (gw as int)
}

/// Row of cell `c`.
pub open spec fn row(gw: nat, c: int) -> int {
    c / (gw as int)
}

/// Whether two grid cells share a side.
pub open spec fn adjacent(gw: nat, gh: nat, a: int, b: int) -> bool {
    &&& in_grid(gw, gh, a)
    &&& in_grid(gw, gh, b)
    &&& ((row(gw, a) == row(gw, b) && (col(gw, b) == col(gw, a) + 1 || col(gw, a) == col(gw, b)
        + 1)) || (col(gw, a) == col(gw, b) && (row(gw, b) == row(gw, a) + 1 || row(gw, a) == row(
        gw,
        b,
    ) + 1)))
}

/// Whether a cell is in the grid and active.
pub open spec fn is_on(active: Seq<bool>, gw: nat, gh: nat, c: int) -> bool {
    in_grid(gw, gh, c) && active[c]
}

/// A walk through active cells, each step to a side neighbour.
pub open spec fn is_path(active: Seq<bool>, gw: nat, gh: nat, p: Seq<int>) -> bool {
    &&& p.len() > 0
    &&& forall|i: int| 0 <= i < p.len() ==> #[trigger] is_on(active, gw, gh, p[i])
    &&& forall|i: int| 0 <= i < p.len() - 1 ==> #[trigger] adjacent(gw, gh, p[i], p[i + 1])
}

/// Whether an active walk leads from `a` to `b`.
pub open spec fn connected(active: Seq<bool>, gw: nat, gh: nat, a: int, b: int) -> bool {
    exists|p: Seq<int>| #[trigger] is_path(active, gw, gh, p) && p[0] == a && p.last() == b
}

/// The cells connected to `seed`.
pub open spec fn component(active: Seq<bool>, gw: nat, gh: nat, seed: int) -> Set<int> {
    Set::new(|c: int| connected(active, gw, gh, seed, c))
}

/// A seed is the first cell, in row-major order, of its connected group.
pub open spec fn is_seed(active: Seq<bool>, gw: nat, gh: nat, s: int) -> bool {
    is_on(active, gw, gh, s) && forall|d: int| 0 <= d < s ==> !#[trigger] connected(active, gw, gh, d, s)
}

/// The seeds below `k`, in increasing order.
pub open spec fn seeds_below(active: Seq<bool>, gw: nat, gh: nat, k: nat) -> Seq<int>
    decreases k,
{
    if k == 0 {
        Seq::empty()
    } else {
        let earlier = seeds_below(active, gw, gh, (k - 1) as nat);
        if is_seed(active, gw, gh, k - 1) {
            earlier.push(k - 1)
        } else {
            earlier
        }
    }
}

/// `b` gives the size and the bounding box (in grid columns and rows) of `cells`.
pub open spec fn describes(gw: nat, b: ComponentBounds, cells: Set<int>) -> bool {
    &&& cells.finite()
    &&& b.cells == cells.len()
    &&& forall|c: int|
        #[trigger] cells.contains(c) ==> b.min_x <= col(gw, c) <= b.max_x && b.min_y <= row(gw, c)
            <= b.max_y
    &&& exists|c: int| #[trigger] cells.contains(c) && col(gw, c) == b.min_x
    &&& exists|c: int| #[trigger] cells.contains(c) && col(gw, c) == b.max_x
    &&& exists|c: int| #[trigger] cells.contains(c) && row(gw, c) == b.min_y
    &&& exists|c: int| #[trigger] cells.contains(c) && row(gw, c) == b.max_y
}

/// A set of active cells that contains every active side neighbour of its members.
pub open spec fn closed(active: Seq<bool>, gw: nat, gh: nat, s: Set<int>) -> bool {
    &&& forall|c: int| #[trigger] s.contains(c) ==> is_on(active, gw, gh, c)
    &&& forall|c: int, n: int|
        #[trigger] s.contains(c) && #[trigger] adjacent(gw, gh, c, n) && is_on(active, gw, gh, n)
            ==> s.contains(n)
}

proof fn lemma_single_path(active: Seq<bool>, gw: nat, gh: nat, a: int)
    requires
        is_on(active, gw, gh, a),
    ensures
        connected(active, gw, gh, a, a),
{
    let p = seq![a];
    assert(is_path(active, gw, gh, p));
}

proof fn lemma_extend(active: Seq<bool>, gw: nat, gh: nat, a: int, c: int, n: int)
    requires
        connected(active, gw, gh, a, c),
        adjacent(gw, gh, c, n),
        is_on(active, gw, gh, n),
    ensures
        connected(active, gw, gh, a, n),
{
    let p = choose|p: Seq<int>| #[trigger] is_path(active, gw, gh, p) && p[0] == a && p.last() == c;
    let q = p.push(n);
    assert forall|i: int| 0 <= i < q.len() implies #[trigger] is_on(active, gw, gh, q[i]) by {
        if i < p.len() {
            assert(q[i] == p[i]);
        }
    }
    assert forall|i: int| 0 <= i < q.len() - 1 implies #[trigger] adjacent(gw, gh, q[i], q[i + 1]) by {
        if i < p.len() - 1 {
            assert(q[i] == p[i] && q[i + 1] == p[i + 1]);
        } else {
            assert(q[i] == c && q[i + 1] == n);
        }
    }
    assert(is_path(active, gw, gh, q));
}

proof fn lemma_path_start_is_on(active: Seq<bool>, gw: nat, gh: nat, a: int, b: int)
    requires
        connected(active, gw, gh, a, b),
    ensures
        is_on(active, gw, gh, a),
        is_on(active, gw, gh, b),
{
    let p = choose|p: Seq<int>| #[trigger] is_path(active, gw, gh, p) && p[0] == a && p.last() == b;
    assert(is_on(active, gw, gh, p[0]));
    assert(is_on(active, gw, gh, p[p.len() - 1]));
}

proof fn lemma_connected_trans(active: Seq<bool>, gw: nat, gh: nat, a: int, b: int, c: int)
    requires
        connected(active, gw, gh, a, b),
        connected(active, gw, gh, b, c),
    ensures
        connected(active, gw, gh, a, c),
{
    let p = choose|p: Seq<int>| #[trigger] is_path(active, gw, gh, p) && p[0] == a && p.last() == b;
    let q = choose|q: Seq<int>| #[trigger] is_path(active, gw, gh, q) && q[0] == b && q.last() == c;
    let r = p + q.drop_first();
    assert forall|i: int| 0 <= i < r.len() implies #[trigger] is_on(active, gw, gh, r[i]) by {
        if i < p.len() {
            assert(r[i] == p[i]);
        } else {
            assert(r[i] == q[i - p.len() + 1]);
        }
    }
    assert forall|i: int| 0 <= i < r.len() - 1 implies #[trigger] adjacent(gw, gh, r[i], r[i + 1]) by {
        if i < p.len() - 1 {
            assert(r[i] == p[i] && r[i + 1] == p[i + 1]);
        } else if i == p.len() - 1 {
            assert(r[i] == b && r[i] == q[0]);
            assert(r[i + 1] == q[1]);
            assert(adjacent(gw, gh, q[0int], q[0int + 1]));
        } else {
            let j = i - p.len() + 1;
            assert(r[i] == q[j] && r[i + 1] == q[j + 1]);
            assert(adjacent(gw, gh, q[j], q[j + 1]));
        }
    }
    if q.len() == 1 {
        assert(r =~= p);
    } else {
        assert(r.last() == q.last());
    }
    assert(is_path(active, gw, gh, r));
}

/// In a path that enters a closed set, every earlier cell is already in that set.
proof fn lemma_closed_back(active: Seq<bool>, gw: nat, gh: nat, s: Set<int>, p: Seq<int>, j: int)
    requires
        closed(active, gw, gh, s),
        is_path(active, gw, gh, p),
        0 <= j < p.len(),
        s.contains(p[j]),
    ensures
        s.contains(p[0]),
    decreases j,
{
    if j > 0 {
        assert(adjacent(gw, gh, p[j - 1], p[(j - 1) + 1]));
        assert(adjacent(gw, gh, p[j], p[j - 1]));
        assert(is_on(active, gw, gh, p[j - 1]));
        lemma_closed_back(active, gw, gh, s, p, j - 1);
    }
}

/// A path from a cell of a closed set stays inside it.
proof fn lemma_closed_forward(active: Seq<bool>, gw: nat, gh: nat, s: Set<int>, p: Seq<int>, j: int)
    requires
        closed(active, gw, gh, s),
        is_path(active, gw, gh, p),
        0 <= j < p.len(),
        s.contains(p[0]),
    ensures
        s.contains(p[j]),
    decreases j,
{
    if j > 0 {
        lemma_closed_forward(active, gw, gh, s, p, j - 1);
        assert(adjacent(gw, gh, p[j - 1], p[(j - 1) + 1]));
        assert(is_on(active, gw, gh, p[j]));
    }
}

/// A component is closed.
proof fn lemma_component_closed(active: Seq<bool>, gw: nat, gh: nat, seed: int)
    requires
        is_on(active, gw, gh, seed),
    ensures
        closed(active, gw, gh, component(active, gw, gh, seed)),
{
    let comp = component(active, gw, gh, seed);
    assert forall|c: int| #[trigger] comp.contains(c) implies is_on(active, gw, gh, c) by {
        lemma_path_start_is_on(active, gw, gh, seed, c);
    }
    assert forall|c: int, n: int|
        #[trigger] comp.contains(c) && #[trigger] adjacent(gw, gh, c, n) && is_on(active, gw, gh, n)
        implies comp.contains(n) by {
        lemma_extend(active, gw, gh, seed, c, n);
    }
}

proof fn lemma_cell_coords(gw: nat, c: int, x: int, y: int)
    requires
        gw > 0,
        0 <= x < gw,
        c == y * gw + x,
    ensures
        col(gw, c) == x,
        row(gw, c) == y,
{
    vstd::arithmetic::div_mod::lemma_fundamental_div_mod_converse(c, gw as int, y, x);
}

proof fn lemma_coords_of(gw: nat, c: int)
    requires
        gw > 0,
        c >= 0,
    ensures
        c == row(gw, c) * gw + col(gw, c),
        0 <= col(gw, c) < gw,
        row(gw, c) >= 0,
{
    vstd::arithmetic::div_mod::lemma_fundamental_div_mod(c, gw as int);
    vstd::arithmetic::div_mod::lemma_mod_pos_bound(c, gw as int);
    assert(c / (gw as int) >= 0) by (nonlinear_arith)
        requires c >= 0, gw > 0, c == gw * (c / (gw as int)) + c % (gw as int), c % (gw as int) < gw;
    assert(c == (c / (gw as int)) * gw + c % (gw as int)) by (nonlinear_arith)
        requires c == gw * (c / (gw as int)) + c % (gw as int);
}

/// Whether `c` is waiting on the flood's stack.
pub open spec fn on_stack(stack: Seq<usize>, c: int) -> bool {
    exists|i: int| 0 <= i < stack.len() && stack[i] == c
}

/// The state of a flood from `seed` over the cells not in `prev`: `visited` marks
/// `prev` and the cells `comp` reached so far; every reached cell is connected to the
/// seed; `b` counts and bounds them; every reached cell off the stack, other than the
/// one being expanded (`except`), has all its active neighbours visited.
pub open spec fn flood_ok(
    active: Seq<bool>,
    gw: nat,
    gh: nat,
    prev: Set<int>,
    seed: int,
    visited: Seq<bool>,
    stack: Seq<usize>,
    b: ComponentBounds,
    comp: Set<int>,
    except: int,
) -> bool {
    &&& visited.len() == gw * gh
    &&& forall|c: int| 0 <= c < gw * gh ==> #[trigger] visited[c] == (prev.contains(c) || comp.contains(c))
    &&& forall|c: int|
        #[trigger] comp.contains(c) ==> is_on(active, gw, gh, c) && connected(active, gw, gh, seed, c)
            && !prev.contains(c)
    &&& comp.contains(seed)
    &&& comp.finite()
    &&& comp.len() == b.cells
    &&& b.cells <= gw * gh
    &&& forall|i: int| 0 <= i < stack.len() ==> #[trigger] comp.contains(stack[i] as int)
    &&& forall|i: int, j: int| 0 <= i < j < stack.len() ==> stack[i] != stack[j]
    &&& forall|c: int, nb: int|
        #[trigger] comp.contains(c) && c != except && !on_stack(stack, c) && #[trigger] adjacent(
            gw,
            gh,
            c,
            nb,
        ) && is_on(active, gw, gh, nb) ==> prev.contains(nb) || comp.contains(nb)
    &&& forall|c: int|
        #[trigger] comp.contains(c) ==> b.min_x <= col(gw, c) <= b.max_x && b.min_y <= row(gw, c)
            <= b.max_y
    &&& exists|c: int| #[trigger] comp.contains(c) && col(gw, c) == b.min_x
    &&& exists|c: int| #[trigger] comp.contains(c) && col(gw, c) == b.max_x
    &&& exists|c: int| #[trigger] comp.contains(c) && row(gw, c) == b.min_y
    &&& exists|c: int| #[trigger] comp.contains(c) && row(gw, c) == b.max_y
}

proof fn lemma_subset_len(comp: Set<int>, n: nat)
    requires
        comp.finite(),
        forall|c: int| #[trigger] comp.contains(c) ==> 0 <= c < n,
    ensures
        comp.len() <= n,
{
    let full = Set::new(|c: int| 0 <= c < n);
    vstd::set_lib::lemma_int_range(0, n as int);
    assert(full =~= vstd::set_lib::set_int_range(0, n as int));
    vstd::set_lib::lemma_len_subset(comp, full);
}

/// Visits one side neighbour `nb` (at column `nx`, row `ny`) of the cell `c` being
/// expanded: an active, unvisited neighbour is marked, counted, pushed and bounded.
fn visit_neighbour(
    active: &[bool],
    gw: usize,
    gh: usize,
    visited: &mut Vec<bool>,
    stack: &mut Vec<usize>,
    b: &mut ComponentBounds,
    nb: usize,
    nx: usize,
    ny: usize,
    c: usize,
    Ghost(prev): Ghost<Set<int>>,
    Ghost(seed): Ghost<int>,
    Ghost(comp): Ghost<Set<int>>,
) -> (grown: Ghost<Set<int>>)
    requires
        gw > 0,
        gw * gh <= active@.len(),
        nb < gw * gh,
        col(gw as nat, nb as int) == nx,
        row(gw as nat, nb as int) == ny,
        adjacent(gw as nat, gh as nat, c as int, nb as int),
        comp.contains(c as int),
        flood_ok(active@, gw as nat, gh as nat, prev, seed, old(visited)@, old(stack)@, *old(b), comp, c as int),
        !on_stack(old(stack)@, c as int),
    ensures
        flood_ok(active@, gw as nat, gh as nat, prev, seed, final(visited)@, final(stack)@, *final(b), grown@, c as int),
        !on_stack(final(stack)@, c as int),
        comp.subset_of(grown@),
        prev.contains(nb as int) || grown@.contains(nb as int) || !active@[nb as int],
        forall|x: int| 0 <= x < gw * gh && #[trigger] old(visited)@[x] ==> final(visited)@[x],
        final(stack)@.len() + old(b).cells == old(stack)@.len() + final(b).cells,
        final(b).cells >= old(b).cells,
{
    assert(active@.len() == active.len());
    if !active[nb] || visited[nb] {
        return Ghost(comp);
    }
    let ghost old_stack = stack@;
    let ghost old_b = *b;
    let ghost new_comp = comp.insert(nb as int);
    visited.set(nb, true);
    stack.push(nb);
    if nx < b.min_x {
        b.min_x = nx;
    }
    if nx > b.max_x {
        b.max_x = nx;
    }
    if ny < b.min_y {
        b.min_y = ny;
    }
    if ny > b.max_y {
        b.max_y = ny;
    }
    proof {
        lemma_extend(active@, gw as nat, gh as nat, seed, c as int, nb as int);
        assert forall|x: int| #[trigger] new_comp.contains(x) implies 0 <= x < gw * gh by {
            if x != nb {
                assert(comp.contains(x));
                assert(is_on(active@, gw as nat, gh as nat, x));
            }
        }
        lemma_subset_len(new_comp, (gw * gh) as nat);
        assert(!comp.contains(nb as int));
        assert(b.cells < gw * gh);
    }
    b.cells = b.cells + 1;
    proof {
        let v = visited@;
        let st = stack@;
        assert forall|x: int| 0 <= x < gw * gh implies #[trigger] v[x] == (prev.contains(x)
            || new_comp.contains(x)) by {
            if x != nb {
                assert(v[x] == old(visited)@[x]);
            }
        }
        assert forall|i: int| 0 <= i < st.len() implies #[trigger] new_comp.contains(st[i] as int) by {
            if i < old_stack.len() {
                assert(st[i] == old_stack[i]);
            }
        }
        assert forall|i: int, j: int| 0 <= i < j < st.len() implies st[i] != st[j] by {
            if j == old_stack.len() {
                assert(st[i] == old_stack[i]);
                assert(comp.contains(old_stack[i] as int));
            } else {
                assert(st[i] == old_stack[i] && st[j] == old_stack[j]);
            }
        }
        assert forall|x: int, y: int|
            #[trigger] new_comp.contains(x) && x != c && !on_stack(st, x) && #[trigger] adjacent(
                gw as nat,
                gh as nat,
                x,
                y,
            ) && is_on(active@, gw as nat, gh as nat, y) implies prev.contains(y) || new_comp.contains(
            y,
        ) by {
            if x == nb {
                assert(st[old_stack.len() as int] == nb);
            } else {
                assert(!on_stack(old_stack, x)) by {
                    if on_stack(old_stack, x) {
                        let i = choose|i: int| 0 <= i < old_stack.len() && old_stack[i] == x;
                        assert(st[i] == old_stack[i]);
                    }
                }
            }
        }
        assert(!on_stack(st, c as int)) by {
            if on_stack(st, c as int) {
                let i = choose|i: int| 0 <= i < st.len() && st[i] == c as int;
                if i < old_stack.len() {
                    assert(st[i] == old_stack[i]);
                }
            }
        }
        assert forall|x: int| #[trigger] new_comp.contains(x) implies b.min_x <= col(gw as nat, x)
            <= b.max_x && b.min_y <= row(gw as nat, x) <= b.max_y by {
            if x != nb {
                assert(comp.contains(x));
            }
        }
        let w0 = choose|x: int| #[trigger] comp.contains(x) && col(gw as nat, x) == old_b.min_x;
        let w1 = choose|x: int| #[trigger] comp.contains(x) && col(gw as nat, x) == old_b.max_x;
        let w2 = choose|x: int| #[trigger] comp.contains(x) && row(gw as nat, x) == old_b.min_y;
        let w3 = choose|x: int| #[trigger] comp.contains(x) && row(gw as nat, x) == old_b.max_y;
        assert(new_comp.contains(w0) && new_comp.contains(w1) && new_comp.contains(w2)
            && new_comp.contains(w3) && new_comp.contains(nb as int));
        if b.min_x == nx {
            assert(new_comp.contains(nb as int) && col(gw as nat, nb as int) == b.min_x);
        } else {
            assert(new_comp.contains(w0) && col(gw as nat, w0) == b.min_x);
        }
        if b.max_x == nx {
            assert(new_comp.contains(nb as int) && col(gw as nat, nb as int) == b.max_x);
        } else {
            assert(new_comp.contains(w1) && col(gw as nat, w1) == b.max_x);
        }
        if b.min_y == ny {
            assert(new_comp.contains(nb as int) && row(gw as nat, nb as int) == b.min_y);
        } else {
            assert(new_comp.contains(w2) && row(gw as nat, w2) == b.min_y);
        }
        if b.max_y == ny {
            assert(new_comp.contains(nb as int) && row(gw as nat, nb as int) == b.max_y);
        } else {
            assert(new_comp.contains(w3) && row(gw as nat, w3) == b.max_y);
        }
        assert forall|x: int| 0 <= x < gw * gh && #[trigger] old(visited)@[x] implies v[x] by {
            if x != nb {
                assert(v[x] == old(visited)@[x]);
            }
        }
    }
    Ghost(new_comp)
}

proof fn lemma_neighbour_cases(gw: nat, gh: nat, c: int, nb: int)
    requires
        gw > 0,
        adjacent(gw, gh, c, nb),
    ensures
        (nb == c - 1 && col(gw, c) > 0) || (nb == c + 1 && col(gw, c) + 1 < gw) || (nb == c - gw
            && row(gw, c) > 0) || (nb == c + gw && row(gw, c) + 1 < gh),
{
    lemma_coords_of(gw, c);
    lemma_coords_of(gw, nb);
    let y = row(gw, nb);
    if row(gw, c) == row(gw, nb) + 1 {
        assert(c == nb + gw) by (nonlinear_arith)
            requires c == row(gw, c) * gw + col(gw, c), nb == y * gw + col(gw, nb),
                row(gw, c) == y + 1, col(gw, c) == col(gw, nb);
    } else if row(gw, nb) == row(gw, c) + 1 {
        assert(nb == c + gw) by (nonlinear_arith)
            requires c == row(gw, c) * gw + col(gw, c), nb == y * gw + col(gw, nb),
                y == row(gw, c) + 1, col(gw, c) == col(gw, nb);
        assert(y < gh) by (nonlinear_arith)
            requires nb == y * gw + col(gw, nb), nb < gw * gh, col(gw, nb) >= 0, gw > 0;
    } else {
        assert(row(gw, c) == row(gw, nb));
    }
}

proof fn lemma_union_closed(active: Seq<bool>, gw: nat, gh: nat, a: Set<int>, b: Set<int>)
    requires
        closed(active, gw, gh, a),
        closed(active, gw, gh, b),
    ensures
        closed(active, gw, gh, a.union(b)),
{
    let u = a.union(b);
    assert forall|c: int, n: int|
        #[trigger] u.contains(c) && #[trigger] adjacent(gw, gh, c, n) && is_on(active, gw, gh, n)
        implies u.contains(n) by {
        if a.contains(c) {
            assert(a.contains(n));
        } else {
            assert(b.contains(n));
        }
    }
}

/// Floods the group of `seed` over the unvisited cells, marking them, and returns its
/// size and extent.
fn flood_component(
    active: &[bool],
    gw: usize,
    gh: usize,
    visited: &mut Vec<bool>,
    seed: usize,
    Ghost(prev): Ghost<Set<int>>,
) -> (b: ComponentBounds)
    requires
        gw > 0,
        gw * gh <= active@.len(),
        seed < gw * gh,
        active@[seed as int],
        !prev.contains(seed as int),
        old(visited)@.len() == gw * gh,
        forall|c: int| 0 <= c < gw * gh ==> #[trigger] old(visited)@[c] == prev.contains(c),
        closed(active@, gw as nat, gh as nat, prev),
    ensures
        final(visited)@.len() == gw * gh,
        forall|c: int|
            0 <= c < gw * gh ==> #[trigger] final(visited)@[c] == (prev.contains(c) || component(
                active@,
                gw as nat,
                gh as nat,
                seed as int,
            ).contains(c)),
        describes(gw as nat, b, component(active@, gw as nat, gh as nat, seed as int)),
{
    let ghost a = active@;
    let ghost n = gw * gh;
    let ghost s = seed as int;
    assert(active@.len() == active.len());
    proof {
        lemma_single_path(a, gw as nat, gh as nat, s);
    }
    visited.set(seed, true);
    let mut stack: Vec<usize> = Vec::new();
    stack.push(seed);
    let x0 = seed % gw;
    let y0 = seed / gw;
    let mut b = ComponentBounds { min_x: x0, min_y: y0, max_x: x0, max_y: y0, cells: 1 };
    let ghost mut comp: Set<int> = Set::empty().insert(s);
    proof {
        assert(comp.len() == 1);
        assert(comp.contains(s));
        assert(forall|c: int| #[trigger] comp.contains(c) ==> c == s);
        assert forall|c: int| 0 <= c < gw * gh implies #[trigger] visited@[c] == (prev.contains(c)
            || comp.contains(c)) by {
            if c != s {
                assert(visited@[c] == old(visited)@[c]);
            }
        }
        assert(stack@[0] == seed);
        assert(1 <= gw * gh);
    }
    while stack.len() > 0
        invariant
            gw > 0,
            gw * gh <= a.len(),
            gw * gh <= usize::MAX,
            a == active@,
            closed(a, gw as nat, gh as nat, prev),
            flood_ok(a, gw as nat, gh as nat, prev, s, visited@, stack@, b, comp, -1),
        decreases 2 * (gw * gh - b.cells) + stack@.len(),
    {
        let ghost before_stack = stack@;
        let c = stack.pop().unwrap();
        proof {
            assert(stack@ =~= before_stack.drop_last());
            assert(c == before_stack.last());
            assert(!on_stack(stack@, c as int)) by {
                if on_stack(stack@, c as int) {
                    let i = choose|i: int| 0 <= i < stack@.len() && stack@[i] == c as int;
                    assert(before_stack[i] == before_stack[before_stack.len() - 1]);
                }
            }
            assert forall|x: int, y: int|
                #[trigger] comp.contains(x) && x != c && !on_stack(stack@, x) && #[trigger] adjacent(
                    gw as nat,
                    gh as nat,
                    x,
                    y,
                ) && is_on(a, gw as nat, gh as nat, y) implies prev.contains(y) || comp.contains(y) by {
                assert(!on_stack(before_stack, x)) by {
                    if on_stack(before_stack, x) {
                        let i = choose|i: int| 0 <= i < before_stack.len() && before_stack[i] == x;
                        if i < before_stack.len() - 1 {
                            assert(stack@[i] == before_stack[i]);
                        }
                    }
                }
            }
            assert forall|i: int| 0 <= i < stack@.len() implies #[trigger] comp.contains(
                stack@[i] as int,
            ) by {
                assert(stack@[i] == before_stack[i]);
            }
            assert(comp.contains(before_stack[before_stack.len() - 1] as int));
            lemma_coords_of(gw as nat, c as int);
        }
        let x = c % gw;
        let y = c / gw;
        proof {
            assert(y * gw + x < gw * gh);
            assert(y < gh) by (nonlinear_arith)
                requires y * gw + x < gw * gh, gw > 0, x >= 0;
        }
        if x > 0 {
            let nb = c - 1;
            proof {
                lemma_cell_coords(gw as nat, nb as int, (x - 1) as int, y as int);
            }
            let grown = visit_neighbour(
                active, gw, gh, visited, &mut stack, &mut b, nb, x - 1, y, c,
                Ghost(prev), Ghost(s), Ghost(comp),
            );
            proof {
                comp = grown@;
            }
        }
        let ghost comp_left = comp;
        if x + 1 < gw {
            let nb = c + 1;
            proof {
                assert(c + 1 < gw * gh) by (nonlinear_arith)
                    requires c == y * gw + x, x + 1 < gw, y < gh;
                lemma_cell_coords(gw as nat, nb as int, (x + 1) as int, y as int);
            }
            let grown = visit_neighbour(
                active, gw, gh, visited, &mut stack, &mut b, nb, x + 1, y, c,
                Ghost(prev), Ghost(s), Ghost(comp),
            );
            proof {
                comp = grown@;
            }
        }
        let ghost comp_right = comp;
        let ghost done_right = x + 1 < gw ==> (prev.contains(c + 1) || comp.contains(c + 1) || !a[c + 1]);
        assert(done_right);
        let ghost done_left = x > 0 ==> (prev.contains(c - 1) || comp.contains(c - 1) || !a[c - 1]);
        assert(done_left);
        if y > 0 {
            proof {
                assert(c >= gw) by (nonlinear_arith)
                    requires c == y * gw + x, y > 0, x >= 0;
            }
            let nb = c - gw;
            proof {
                assert(nb == (y - 1) * gw + x) by (nonlinear_arith)
                    requires c == y * gw + x, nb == c - gw, y > 0;
                lemma_cell_coords(gw as nat, nb as int, x as int, (y - 1) as int);
            }
            let grown = visit_neighbour(
                active, gw, gh, visited, &mut stack, &mut b, nb, x, y - 1, c,
                Ghost(prev), Ghost(s), Ghost(comp),
            );
            proof {
                comp = grown@;
            }
        }
        let ghost comp_up = comp;
        let ghost done_up = y > 0 ==> (prev.contains(c - gw) || comp.contains(c - gw) || !a[c - gw]);
        assert(done_up);
        if y + 1 < gh {
            proof {
                assert(c + gw < gw * gh) by (nonlinear_arith)
                    requires c == y * gw + x, x < gw, y + 1 < gh;
            }
            let nb = c + gw;
            proof {
                assert(nb == (y + 1) * gw + x) by (nonlinear_arith)
                    requires c == y * gw + x, nb == c + gw;
                lemma_cell_coords(gw as nat, nb as int, x as int, (y + 1) as int);
            }
            let grown = visit_neighbour(
                active, gw, gh, visited, &mut stack, &mut b, nb, x, y + 1, c,
                Ghost(prev), Ghost(s), Ghost(comp),
            );
            proof {
                comp = grown@;
            }
        }
        proof {
            assert forall|xx: int, yy: int|
                #[trigger] comp.contains(xx) && xx != -1 && !on_stack(stack@, xx) && #[trigger] adjacent(
                    gw as nat,
                    gh as nat,
                    xx,
                    yy,
                ) && is_on(a, gw as nat, gh as nat, yy) implies prev.contains(yy) || comp.contains(yy) by {
                if xx == c {
                    lemma_neighbour_cases(gw as nat, gh as nat, c as int, yy);
                    // Each candidate neighbour was visited (or is off) and stays so.
                    if yy == c - 1 {
                        assert(comp_left.subset_of(comp));
                    } else if yy == c + 1 {
                        assert(comp_right.subset_of(comp));
                    } else if yy == c - gw {
                        assert(comp_up.subset_of(comp));
                    } else {
                        assert(prev.contains(yy) || comp.contains(yy) || !a[yy]);
                    }
                }
            }
        }
    }
    proof {
        let target = component(a, gw as nat, gh as nat, s);
        let both = prev.union(comp);
        assert(closed(a, gw as nat, gh as nat, both)) by {
            assert forall|c: int| #[trigger] both.contains(c) implies is_on(a, gw as nat, gh as nat, c) by {
                if !prev.contains(c) {
                    assert(comp.contains(c));
                }
            }
            assert forall|c: int, nn: int|
                #[trigger] both.contains(c) && #[trigger] adjacent(gw as nat, gh as nat, c, nn) && is_on(
                    a,
                    gw as nat,
                    gh as nat,
                    nn,
                ) implies both.contains(nn) by {
                if prev.contains(c) {
                    assert(prev.contains(nn));
                } else {
                    assert(comp.contains(c));
                    assert(!on_stack(stack@, c));
                }
            }
        }
        assert forall|c: int| #[trigger] target.contains(c) implies comp.contains(c) by {
            let p = choose|p: Seq<int>| #[trigger] is_path(a, gw as nat, gh as nat, p) && p[0] == s
                && p.last() == c;
            lemma_closed_forward(a, gw as nat, gh as nat, both, p, p.len() - 1);
            if prev.contains(c) {
                lemma_closed_back(a, gw as nat, gh as nat, prev, p, p.len() - 1);
            }
        }
        assert(comp =~= target);
    }
    b
}

/// The groups of 4-connected active cells of a `grid_width` x `grid_height` grid,
/// in the row-major order of their first cell, each with its cell count and its
/// bounding box in grid columns and rows.
pub fn collect_component_bounds(active: &[bool], grid_width: usize, grid_height: usize) -> (found:
    Vec<ComponentBounds>)
    requires
        grid_width * grid_height <= active@.len(),
    ensures
        found@.len() == seeds_below(
            active@,
            grid_width as nat,
            grid_height as nat,
            (grid_width * grid_height) as nat,
        ).len(),
        forall|i: int|
            0 <= i < found@.len() ==> describes(
                grid_width as nat,
                #[trigger] found@[i],
                component(
                    active@,
                    grid_width as nat,
                    grid_height as nat,
                    seeds_below(
                        active@,
                        grid_width as nat,
                        grid_height as nat,
                        (grid_width * grid_height) as nat,
                    )[i],
                ),
            ),
{
    let ghost a = active@;
    let ghost gwn = grid_width as nat;
    let ghost ghn = grid_height as nat;
    assert(active@.len() == active.len());
    let n = grid_width * grid_height;
    let mut visited: Vec<bool> = Vec::new();
    let mut k: usize = 0;
    while k < n
        invariant
            k <= n,
            visited@.len() == k,
            forall|c: int| 0 <= c < k ==> !#[trigger] visited@[c],
        decreases n - k,
    {
        visited.push(false);
        k = k + 1;
    }
    let mut found: Vec<ComponentBounds> = Vec::new();
    let ghost mut seen: Set<int> = Set::empty();
    let mut idx: usize = 0;
    while idx < n
        invariant
            a == active@,
            gwn == grid_width,
            ghn == grid_height,
            n == grid_width * grid_height,
            n <= a.len(),
            idx <= n,
            visited@.len() == n,
            forall|c: int| 0 <= c < n ==> #[trigger] visited@[c] == seen.contains(c),
            closed(a, gwn, ghn, seen),
            forall|c: int|
                #[trigger] seen.contains(c) <==> exists|d: int|
                    0 <= d < idx && #[trigger] connected(a, gwn, ghn, d, c),
            found@.len() == seeds_below(a, gwn, ghn, idx as nat).len(),
            forall|i: int|
                0 <= i < found@.len() ==> describes(
                    gwn,
                    #[trigger] found@[i],
                    component(a, gwn, ghn, seeds_below(a, gwn, ghn, idx as nat)[i]),
                ),
        decreases n - idx,
    {
        let ghost i = idx as int;
        let ghost old_seen = seen;
        let ghost old_found = found@;
        assert(active@.len() == active.len());
        if active[idx] && !visited[idx] {
            proof {
                assert(!visited@[i]);
                assert(!seen.contains(i));
                assert(a[i]);
                assert(in_grid(gwn, ghn, i));
                assert forall|d: int| 0 <= d < i implies !#[trigger] connected(a, gwn, ghn, d, i) by {
                    if connected(a, gwn, ghn, d, i) {
                        assert(seen.contains(i));
                    }
                }
                assert(is_seed(a, gwn, ghn, i));
                assert(grid_width > 0) by (nonlinear_arith)
                    requires idx < grid_width * grid_height;
                lemma_component_closed(a, gwn, ghn, i);
                assert(closed(active@, grid_width as nat, grid_height as nat, seen));
            }
            let b = flood_component(active, grid_width, grid_height, &mut visited, idx, Ghost(seen));
            found.push(b);
            proof {
                let comp = component(a, gwn, ghn, i);
                seen = old_seen.union(comp);
                lemma_union_closed(a, gwn, ghn, old_seen, comp);
                assert forall|c: int| #[trigger] seen.contains(c) <==> exists|d: int|
                    0 <= d < i + 1 && #[trigger] connected(a, gwn, ghn, d, c) by {
                    if comp.contains(c) {
                        assert(connected(a, gwn, ghn, i, c));
                    }
                    if exists|d: int| 0 <= d < i + 1 && #[trigger] connected(a, gwn, ghn, d, c) {
                        let d = choose|d: int| 0 <= d < i + 1 && #[trigger] connected(a, gwn, ghn, d, c);
                        if d < i {
                            assert(old_seen.contains(c));
                        } else {
                            assert(comp.contains(c));
                        }
                    }
                }
                assert(seeds_below(a, gwn, ghn, (i + 1) as nat) == seeds_below(a, gwn, ghn, i as nat).push(i));
                assert forall|j: int| 0 <= j < found@.len() implies describes(
                    gwn,
                    #[trigger] found@[j],
                    component(a, gwn, ghn, seeds_below(a, gwn, ghn, (i + 1) as nat)[j]),
                ) by {
                    if j < old_found.len() {
                        assert(found@[j] == old_found[j]);
                    }
                }
            }
        } else {
            proof {
                if !a[i] {
                    assert forall|c: int| !#[trigger] connected(a, gwn, ghn, i, c) by {
                        if connected(a, gwn, ghn, i, c) {
                            lemma_path_start_is_on(a, gwn, ghn, i, c);
                        }
                    }
                } else {
                    assert(seen.contains(i));
                    let d0 = choose|d: int| 0 <= d < i && #[trigger] connected(a, gwn, ghn, d, i);
                    assert forall|c: int| #[trigger] connected(a, gwn, ghn, i, c) implies seen.contains(c) by {
                        lemma_connected_trans(a, gwn, ghn, d0, i, c);
                    }
                    assert(!is_seed(a, gwn, ghn, i));
                }
                assert forall|c: int| #[trigger] seen.contains(c) <==> exists|d: int|
                    0 <= d < i + 1 && #[trigger] connected(a, gwn, ghn, d, c) by {
                    if exists|d: int| 0 <= d < i + 1 && #[trigger] connected(a, gwn, ghn, d, c) {
                        let d = choose|d: int| 0 <= d < i + 1 && #[trigger] connected(a, gwn, ghn, d, c);
                        if d == i {
                            assert(seen.contains(c));
                        }
                    }
                }
                assert(seeds_below(a, gwn, ghn, (i + 1) as nat) == seeds_below(a, gwn, ghn, i as nat));
            }
        }
        idx = idx + 1;
    }
    found
}

proof fn lemma_connected_symmetric(active: Seq<bool>, gw: nat, gh: nat, a: int, b: int)
    requires
        connected(active, gw, gh, a, b),
    ensures
        connected(active, gw, gh, b, a),
{
    let p = choose|p: Seq<int>| #[trigger] is_path(active, gw, gh, p) && p[0] == a && p.last() == b;
    let r = p.reverse();
    assert forall|i: int| 0 <= i < r.len() implies #[trigger] is_on(active, gw, gh, r[i]) by {
        assert(r[i] == p[p.len() - 1 - i]);
    }
    assert forall|i: int| 0 <= i < r.len() - 1 implies #[trigger] adjacent(gw, gh, r[i], r[i + 1]) by {
        let j = p.len() - 2 - i;
        assert(r[i] == p[j + 1] && r[i + 1] == p[j]);
        assert(adjacent(gw, gh, p[j], p[j + 1]));
    }
    assert(r[0] == b && r.last() == a);
    assert(is_path(active, gw, gh, r));
}

proof fn lemma_seeds_below(active: Seq<bool>, gw: nat, gh: nat, k: nat)
    ensures
        forall|j: int|
            0 <= j < seeds_below(active, gw, gh, k).len() ==> is_seed(
                active,
                gw,
                gh,
                #[trigger] seeds_below(active, gw, gh, k)[j],
            ) && seeds_below(active, gw, gh, k)[j] < k,
        forall|i: int, j: int|
            0 <= i < j < seeds_below(active, gw, gh, k).len() ==> #[trigger] seeds_below(
                active,
                gw,
                gh,
                k,
            )[i] < #[trigger] seeds_below(active, gw, gh, k)[j],
        forall|s: int|
            0 <= s < k && is_seed(active, gw, gh, s) ==> #[trigger] seeds_below(
                active,
                gw,
                gh,
                k,
            ).contains(s),
    decreases k,
{
    if k > 0 {
        let km = (k - 1) as nat;
        lemma_seeds_below(active, gw, gh, km);
        let e = seeds_below(active, gw, gh, km);
        let t = seeds_below(active, gw, gh, k);
        assert forall|s: int| 0 <= s < k && is_seed(active, gw, gh, s) implies #[trigger] t.contains(s) by {
            if s < km {
                assert(e.contains(s));
                let j = choose|j: int| 0 <= j < e.len() && e[j] == s;
                if is_seed(active, gw, gh, k - 1) {
                    assert(t[j] == e[j]);
                }
            } else {
                assert(t[t.len() - 1] == s);
            }
        }
        assert forall|j: int| 0 <= j < t.len() implies is_seed(active, gw, gh, #[trigger] t[j]) && t[j] < k by {
            if j < e.len() {
                assert(t[j] == e[j]);
            }
        }
        assert forall|i: int, j: int| 0 <= i < j < t.len() implies #[trigger] t[i] < #[trigger] t[j] by {
            if j < e.len() {
                assert(t[i] == e[i] && t[j] == e[j]);
            } else {
                assert(t[i] == e[i]);
            }
        }
    }
}

proof fn lemma_first_connected(active: Seq<bool>, gw: nat, gh: nat, c: int, k: int) -> (d: int)
    requires
        0 <= k,
        connected(active, gw, gh, k, c),
    ensures
        0 <= d <= k,
        connected(active, gw, gh, d, c),
        forall|e: int| 0 <= e < d ==> !#[trigger] connected(active, gw, gh, e, c),
    decreases k,
{
    if exists|e: int| 0 <= e < k && #[trigger] connected(active, gw, gh, e, c) {
        let e = choose|e: int| 0 <= e < k && #[trigger] connected(active, gw, gh, e, c);
        lemma_first_connected(active, gw, gh, c, e)
    } else {
        k
    }
}

/// The reported groups partition the active cells: every active cell lies in the
/// group of exactly one seed, and no two seeds share a cell.
pub proof fn lemma_components_partition(active: Seq<bool>, gw: nat, gh: nat)
    ensures
        ({
            let seeds = seeds_below(active, gw, gh, gw * gh);
            &&& forall|c: int|
                #[trigger] is_on(active, gw, gh, c) ==> exists|j: int|
                    0 <= j < seeds.len() && #[trigger] component(active, gw, gh, seeds[j]).contains(c)
            &&& forall|i: int, j: int, c: int|
                0 <= i < seeds.len() && 0 <= j < seeds.len() && i != j && #[trigger] component(
                    active,
                    gw,
                    gh,
                    seeds[i],
                ).contains(c) ==> !#[trigger] component(active, gw, gh, seeds[j]).contains(c)
        }),
{
    let n = gw * gh;
    let seeds = seeds_below(active, gw, gh, n);
    lemma_seeds_below(active, gw, gh, n);
    assert forall|c: int| #[trigger] is_on(active, gw, gh, c) implies exists|j: int|
        0 <= j < seeds.len() && #[trigger] component(active, gw, gh, seeds[j]).contains(c) by {
        lemma_single_path(active, gw, gh, c);
        let d = lemma_first_connected(active, gw, gh, c, c);
        lemma_path_start_is_on(active, gw, gh, d, c);
        assert forall|e: int| 0 <= e < d implies !#[trigger] connected(active, gw, gh, e, d) by {
            if connected(active, gw, gh, e, d) {
                lemma_connected_trans(active, gw, gh, e, d, c);
            }
        }
        assert(is_seed(active, gw, gh, d));
        assert(seeds.contains(d));
        let j = choose|j: int| 0 <= j < seeds.len() && seeds[j] == d;
        assert(component(active, gw, gh, seeds[j]).contains(c));
    }
    assert forall|i: int, j: int, c: int|
        0 <= i < seeds.len() && 0 <= j < seeds.len() && i != j && #[trigger] component(
            active,
            gw,
            gh,
            seeds[i],
        ).contains(c) implies !#[trigger] component(active, gw, gh, seeds[j]).contains(c) by {
        if component(active, gw, gh, seeds[j]).contains(c) {
            let (lo, hi) = if i < j { (seeds[i], seeds[j]) } else { (seeds[j], seeds[i]) };
            assert(lo < hi);
            assert(connected(active, gw, gh, lo, c));
            assert(connected(active, gw, gh, hi, c));
            lemma_connected_symmetric(active, gw, gh, hi, c);
            lemma_connected_trans(active, gw, gh, lo, c, hi);
            assert(is_seed(active, gw, gh, hi));
        }
    }
}

} // verus!
