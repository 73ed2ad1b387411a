//! The settling engine: one tick of the falling-sand rule.
//!
//! Each tick maps the particle list to its successor, one output per input,
//! every decision read off the input snapshot. A particle that has settled,
//! or whose next cell is the floor, stays where it is and is marked static.
//! A particle with a free cell below falls one cell. A particle blocked by a
//! settled particle looks at the *obstacles* — the settled particles in its
//! own column within three rows of the landing row — and either freezes in
//! place (some obstacle is walled in on both sides), shifts one cell toward
//! the open side of the topmost one-sided obstacle, or, when no obstacle
//! decides, shifts toward a side picked by a coin.

use vstd::arithmetic::div_mod::{lemma_fundamental_div_mod, lemma_mod_multiples_basic};
use vstd::prelude::*;

use crate::pixel::{find_static_at, occupied_static, wf_pixel, wf_pixels, PixelContent};

use rand::Rng;

verus! {

/// The ephemeral per-collision decision: no decision yet, or a one-cell
/// shift, anchored at the row of the obstacle that forced it.
#[derive(Debug, Copy, Clone, PartialEq)]
pub enum Alignment {
    Nothing,
    Right(i32),
    Left(i32),
}

/// A settled cell sits directly left of `(x, y)` and directly right of it.
pub open spec fn boxed_in(s: Seq<PixelContent>, x: int, y: int) -> bool {
    occupied_static(s, x - 10, y) && occupied_static(s, x + 10, y)
}

/// A settled cell sits directly left of `(x, y)` and none directly right:
/// a particle displaced at this row goes right.
pub open spec fn pushes_right(s: Seq<PixelContent>, x: int, y: int) -> bool {
    occupied_static(s, x - 10, y) && !occupied_static(s, x + 10, y)
}

/// A settled cell sits directly right of `(x, y)` and none directly left:
/// a particle displaced at this row goes left.
pub open spec fn pushes_left(s: Seq<PixelContent>, x: int, y: int) -> bool {
    occupied_static(s, x + 10, y) && !occupied_static(s, x - 10, y)
}

/// The row decides a direction: exactly one side is occupied.
pub open spec fn one_sided(s: Seq<PixelContent>, x: int, y: int) -> bool {
    pushes_right(s, x, y) || pushes_left(s, x, y)
}

/// `s[j]` is an obstacle for the particle at index `i`: another, settled
/// particle in the same column, no deeper than three rows below `s[i]`.
pub open spec fn is_obstacle(s: Seq<PixelContent>, i: int, j: int) -> bool {
    &&& 0 <= j < s.len()
    &&& j != i
    &&& s[j].is_static
    &&& s[j].x == s[i].x
    &&& s[j].y <= s[i].y + 30
}

/// `s[j]` is an obstacle for `s[i]` whose row is walled in on both sides.
pub open spec fn boxed_obstacle(s: Seq<PixelContent>, i: int, j: int) -> bool {
    is_obstacle(s, i, j) && boxed_in(s, s[i].x as int, s[j].y as int)
}

/// `s[j]` is an obstacle for `s[i]` whose row decides a direction.
pub open spec fn decisive_obstacle(s: Seq<PixelContent>, i: int, j: int) -> bool {
    is_obstacle(s, i, j) && one_sided(s, s[i].x as int, s[j].y as int)
}

pub open spec fn some_obstacle_boxed(s: Seq<PixelContent>, i: int) -> bool {
    exists|j: int| boxed_obstacle(s, i, j)
}

pub open spec fn has_decisive_obstacle(s: Seq<PixelContent>, i: int) -> bool {
    exists|j: int| decisive_obstacle(s, i, j)
}

/// `s[j]` is the decisive obstacle the scan stops at: the one with the
/// smallest `y` (the highest in the pile) among the decisive obstacles.
pub open spec fn first_decisive(s: Seq<PixelContent>, i: int, j: int) -> bool {
    &&& decisive_obstacle(s, i, j)
    &&& forall|k: int| #[trigger] decisive_obstacle(s, i, k) ==> s[j].y <= s[k].y
}

/// The scan over the obstacles of `s[i]` ends in a shift to the right.
pub open spec fn first_decision_right(s: Seq<PixelContent>, i: int) -> bool {
    exists|j: int| first_decisive(s, i, j) && pushes_right(s, s[i].x as int, s[j].y as int)
}

/// Direction of a displaced particle: the topmost decisive obstacle rules;
/// with no decisive obstacle the coin does.
pub open spec fn moves_right(s: Seq<PixelContent>, i: int, coin: bool) -> bool {
    if has_decisive_obstacle(s, i) {
        first_decision_right(s, i)
    } else {
        coin
    }
}

/// The coin is consulted for index `i`: the particle is blocked, no obstacle
/// is walled in, and no obstacle decides a direction.
pub open spec fn needs_coin(s: Seq<PixelContent>, h: int, i: int) -> bool {
    &&& !s[i].is_static
    &&& s[i].y + 10 != h
    &&& occupied_static(s, s[i].x as int, s[i].y + 10)
    &&& !some_obstacle_boxed(s, i)
    &&& !has_decisive_obstacle(s, i)
}

/// The successor of the particle at index `i` of `s`, on a board of height
/// `h`, when the tie-break coin (consulted only if `needs_coin`) shows
/// `coin`.
pub open spec fn next_pixel(s: Seq<PixelContent>, h: int, i: int, coin: bool) -> PixelContent
    recommends
        0 <= i < s.len(),
        wf_pixel(s[i]),
{
    let p = s[i];
    if p.is_static || p.y + 10 == h {
        p.settled()
    } else if !occupied_static(s, p.x as int, p.y + 10) {
        PixelContent { x: p.x, y: (p.y + 10) as i32, is_static: false }
    } else if some_obstacle_boxed(s, i) {
        p.settled()
    } else if moves_right(s, i, coin) {
        PixelContent { x: (p.x + 10) as i32, y: p.y, is_static: false }
    } else {
        PixelContent { x: (p.x - 10) as i32, y: p.y, is_static: false }
    }
}

/// One whole tick: the `i`th output is the successor of the `i`th input.
pub open spec fn transition(s: Seq<PixelContent>, h: int, coins: Seq<bool>) -> Seq<PixelContent> {
    Seq::new(s.len(), |i: int| next_pixel(s, h, i, coins[i]))
}

/// `q` is a successor the tick may give the particle at index `i`: the
/// deterministic one, or either answer of the tie-break coin.
pub open spec fn possible_next(s: Seq<PixelContent>, h: int, i: int, q: PixelContent) -> bool {
    exists|c: bool| q == next_pixel(s, h, i, c)
}

/// Relies on `rand::thread_rng` and `rand::Rng::gen::<bool>` for the
/// left/right tie-break: a fresh draw from the thread-local generator.
/// Nothing is promised of the value; callers hold for either outcome.
#[verifier::external_body]
fn coin_flip() -> bool {
    rand::thread_rng().gen::<bool>()
}

/// Compute the successor of the particle at index `i`, the tie-break coin
/// given from outside.
pub fn step_pixel(pixels: &Vec<PixelContent>, board_height: i32, i: usize, coin: bool) -> (r:
    PixelContent)
    requires
        wf_pixels(pixels@),
        i < pixels@.len(),
    ensures
        r == next_pixel(pixels@, board_height as int, i as int, coin),
{
    let ghost s = pixels@;
    let p = pixels[i];
    proof {
        assert(wf_pixel(s[i as int]));
    }
    if p.is_static || p.y + 10 == board_height {
        return p.as_static();
    }
    let hit_below = find_static_at(pixels, p.x, p.y + 10);
    if !hit_below {
        return PixelContent::new(p.x, p.y + 10);
    }
    let mut any_boxed: bool = false;
    let mut have_best: bool = false;
    let mut best_y: i32 = 0;
    let mut best_right: bool = false;
    let mut saw_obstacle: bool = false;
    let mut last_y: i32 = 0;
    let mut j: usize = 0;
    while j < pixels.len()
        invariant
            s == pixels@,
            i < s.len(),
            j <= s.len(),
            p == s[i as int],
            wf_pixels(s),
            wf_pixel(p),
            !p.is_static,
            any_boxed == exists|k: int| 0 <= k < j && #[trigger] boxed_obstacle(s, i as int, k),
            have_best == exists|k: int|
                0 <= k < j && #[trigger] decisive_obstacle(s, i as int, k),
            have_best ==> exists|k: int|
                0 <= k < j && #[trigger] decisive_obstacle(s, i as int, k) && s[k].y == best_y,
            have_best ==> best_right == pushes_right(s, p.x as int, best_y as int),
            have_best ==> forall|k: int|
                0 <= k < j && #[trigger] decisive_obstacle(s, i as int, k) ==> best_y <= s[k].y,
        decreases s.len() - j,
    {
        let q = pixels[j];
        let is_obs = j != i && q.is_static && q.x == p.x && q.y <= p.y + 30;
        proof {
            assert(is_obs == is_obstacle(s, i as int, j as int));
        }
        if is_obs {
            proof {
                assert(wf_pixel(s[j as int]));
            }
            let (has_left, has_right) = q.has_side_neighbors(pixels);
            if has_left && has_right {
                proof {
                    assert(boxed_obstacle(s, i as int, j as int));
                }
                any_boxed = true;
            } else if has_left != has_right {
                proof {
                    assert(decisive_obstacle(s, i as int, j as int));
                }
                if !have_best || q.y < best_y {
                    have_best = true;
                    best_y = q.y;
                    best_right = has_left;
                }
            }
            if !saw_obstacle || q.y > last_y {
                last_y = q.y;
            }
            saw_obstacle = true;
        }
        j += 1;
    }
    if any_boxed {
        proof {
            let k = choose|k: int| 0 <= k < j && boxed_obstacle(s, i as int, k);
            assert(boxed_obstacle(s, i as int, k));
        }
        return p.as_static();
    }
    proof {
        assert(!some_obstacle_boxed(s, i as int)) by {
            if some_obstacle_boxed(s, i as int) {
                let k = choose|k: int| boxed_obstacle(s, i as int, k);
                assert(0 <= k < j && boxed_obstacle(s, i as int, k));
                assert(false);
            }
        }
        assert(has_decisive_obstacle(s, i as int) == have_best) by {
            if has_decisive_obstacle(s, i as int) {
                let k = choose|k: int| decisive_obstacle(s, i as int, k);
                assert(0 <= k < j && decisive_obstacle(s, i as int, k));
            }
        }
        if have_best {
            let kb = choose|k: int|
                0 <= k < j && #[trigger] decisive_obstacle(s, i as int, k) && s[k].y == best_y;
            assert(first_decisive(s, i as int, kb)) by {
                assert forall|k: int| #[trigger] decisive_obstacle(s, i as int, k) implies s[kb].y
                    <= s[k].y by {
                    assert(0 <= k < j);
                }
            }
            lemma_first_decisive_direction(s, i as int, kb);
        }
    }
    let go_right = if have_best {
        best_right
    } else {
        coin
    };
    proof {
        assert(moves_right(s, i as int, coin) == go_right);
    }
    let anchor: i32 = if have_best {
        best_y
    } else {
        last_y
    };
    let mut alignment = Alignment::Nothing;
    if go_right {
        alignment = Alignment::Right(anchor);
    } else {
        alignment = Alignment::Left(anchor);
    }
    match alignment {
        Alignment::Right(_) => PixelContent::new(p.x + 10, p.y),
        _ => PixelContent::new(p.x - 10, p.y),
    }
}

/// One tick with the tie-break coins given from outside, one per particle:
/// the deterministic seam behind `move_pixels`.
pub fn move_pixels_with(pixels: Vec<PixelContent>, board_height: i32, coins: Vec<bool>) -> (r: Vec<
    PixelContent,
>)
    requires
        wf_pixels(pixels@),
        coins@.len() == pixels@.len(),
    ensures
        r@.len() == pixels@.len(),
        r@ == transition(pixels@, board_height as int, coins@),
{
    let mut out: Vec<PixelContent> = Vec::new();
    let mut idx: usize = 0;
    while idx < pixels.len()
        invariant
            wf_pixels(pixels@),
            coins@.len() == pixels@.len(),
            idx <= pixels@.len(),
            out@.len() == idx,
            forall|k: int|
                0 <= k < idx ==> out@[k] == next_pixel(
                    pixels@,
                    board_height as int,
                    k,
                    coins@[k],
                ),
        decreases pixels@.len() - idx,
    {
        let next = step_pixel(&pixels, board_height, idx, coins[idx]);
        out.push(next);
        idx += 1;
    }
    proof {
        assert(out@ =~= transition(pixels@, board_height as int, coins@));
    }
    out
}

/// One tick of the simulation, drawing the tie-break coins from the
/// thread-local random generator. Every output is a possible successor of
/// the input at the same index, and the coin shows only where the rule
/// leaves the direction open.
pub fn move_pixels(pixels: Vec<PixelContent>, board_height: i32) -> (r: Vec<PixelContent>)
    requires
        wf_pixels(pixels@),
    ensures
        r@.len() == pixels@.len(),
        forall|k: int|
            0 <= k < pixels@.len() ==> possible_next(
                pixels@,
                board_height as int,
                k,
                #[trigger] r@[k],
            ),
        forall|k: int, c: bool|
            0 <= k < pixels@.len() && !needs_coin(pixels@, board_height as int, k) ==> r@[k]
                == #[trigger] next_pixel(pixels@, board_height as int, k, c),
{
    let ghost s = pixels@;
    let ghost h = board_height as int;
    let mut coins: Vec<bool> = Vec::new();
    let mut k: usize = 0;
    while k < pixels.len()
        invariant
            coins@.len() == k,
            k <= pixels@.len(),
        decreases pixels@.len() - k,
    {
        coins.push(coin_flip());
        k += 1;
    }
    let ghost cs = coins@;
    let r = move_pixels_with(pixels, board_height, coins);
    proof {
        assert forall|k2: int| 0 <= k2 < s.len() implies possible_next(s, h, k2, r@[k2]) by {
            assert(r@[k2] == next_pixel(s, h, k2, cs[k2]));
        }
        assert forall|k2: int, c: bool| 0 <= k2 < s.len() && !needs_coin(s, h, k2) implies r@[k2]
            == next_pixel(s, h, k2, c) by {
            assert(r@[k2] == next_pixel(s, h, k2, cs[k2]));
            lemma_coin_irrelevant(s, h, k2, cs[k2], c);
        }
    }
    r
}

/// The scan's answer is a function of the decisive obstacle it stops at:
/// whichever witness of `first_decisive` is taken, the direction is the one
/// its row pushes.
pub proof fn lemma_first_decisive_direction(s: Seq<PixelContent>, i: int, j: int)
    requires
        first_decisive(s, i, j),
    ensures
        first_decision_right(s, i) == pushes_right(s, s[i].x as int, s[j].y as int),
{
    if pushes_right(s, s[i].x as int, s[j].y as int) {
        assert(first_decisive(s, i, j) && pushes_right(s, s[i].x as int, s[j].y as int));
    } else {
        if first_decision_right(s, i) {
            let j2 = choose|j2: int|
                first_decisive(s, i, j2) && pushes_right(s, s[i].x as int, s[j2].y as int);
            assert(decisive_obstacle(s, i, j2));
            assert(decisive_obstacle(s, i, j));
            assert(s[j].y <= s[j2].y);
            assert(s[j2].y <= s[j].y);
            assert(pushes_right(s, s[i].x as int, s[j].y as int));
            assert(false);
        }
    }
}

/// Where the rule does not consult the coin, the tick is deterministic: the
/// successor is the same for either face of the coin.
pub proof fn lemma_coin_irrelevant(s: Seq<PixelContent>, h: int, i: int, c1: bool, c2: bool)
    requires
        0 <= i < s.len(),
        !needs_coin(s, h, i),
    ensures
        next_pixel(s, h, i, c1) == next_pixel(s, h, i, c2),
{
}

/// A settled particle alone on the board passes through a tick unchanged.
pub proof fn lemma_static_idempotent(p: PixelContent, h: int, coin: bool)
    requires
        p.is_static,
    ensures
        transition(seq![p], h, seq![coin]) == seq![p],
{
    let s = seq![p];
    assert(next_pixel(s, h, 0, coin) == p);
    assert(transition(s, h, seq![coin]) =~= seq![p]);
}

/// A particle whose next cell is the floor settles where it stands.
pub proof fn lemma_floor_settles(p: PixelContent, h: int, coin: bool)
    requires
        p.y + 10 == h,
    ensures
        transition(seq![p], h, seq![coin]) == seq![p.settled()],
{
    let s = seq![p];
    assert(next_pixel(s, h, 0, coin) == p.settled());
    assert(transition(s, h, seq![coin]) =~= seq![p.settled()]);
}

/// A blocked particle every one of whose obstacles is walled in on both
/// sides settles in place: no horizontal movement, whatever the coin.
pub proof fn lemma_boxed_in_settles(s: Seq<PixelContent>, h: int, i: int, coin: bool)
    requires
        0 <= i < s.len(),
        !s[i].is_static,
        s[i].y + 10 != h,
        occupied_static(s, s[i].x as int, s[i].y + 10),
        forall|j: int| #[trigger] is_obstacle(s, i, j) ==> boxed_in(s, s[i].x as int, s[j].y as int),
    ensures
        next_pixel(s, h, i, coin) == s[i].settled(),
{
    assert(exists|k: int|
        0 <= k < s.len() && s[k].is_static && s[k].x == s[i].x as int && s[k].y == s[i].y + 10);
    let jb = choose|k: int|
        0 <= k < s.len() && s[k].is_static && s[k].x == s[i].x as int && s[k].y == s[i].y + 10;
    assert(is_obstacle(s, i, jb));
    assert(boxed_obstacle(s, i, jb));
}

/// A blocked particle under a one-sided pile shifts exactly one cell toward
/// the open side, keeps its row, stays unsettled — and the coin plays no
/// part in it.
pub proof fn lemma_one_sided_displaces(s: Seq<PixelContent>, h: int, i: int, j: int, coin: bool)
    requires
        0 <= i < s.len(),
        !s[i].is_static,
        s[i].y + 10 != h,
        occupied_static(s, s[i].x as int, s[i].y + 10),
        !some_obstacle_boxed(s, i),
        first_decisive(s, i, j),
    ensures
        pushes_right(s, s[i].x as int, s[j].y as int) ==> next_pixel(s, h, i, coin)
            == (PixelContent { x: (s[i].x + 10) as i32, y: s[i].y, is_static: false }),
        pushes_left(s, s[i].x as int, s[j].y as int) ==> next_pixel(s, h, i, coin)
            == (PixelContent { x: (s[i].x - 10) as i32, y: s[i].y, is_static: false }),
{
    assert(decisive_obstacle(s, i, j));
    lemma_first_decisive_direction(s, i, j);
}

/// Grid alignment is preserved: a particle on the 10-unit grid is still on
/// it after a tick.
pub proof fn lemma_alignment_preserved(s: Seq<PixelContent>, h: int, i: int, coin: bool)
    requires
        0 <= i < s.len(),
        wf_pixel(s[i]),
        s[i].x % 10 == 0,
        s[i].y % 10 == 0,
    ensures
        next_pixel(s, h, i, coin).x % 10 == 0,
        next_pixel(s, h, i, coin).y % 10 == 0,
{
    lemma_step10_keeps_mod(s[i].x as int);
    lemma_step10_keeps_mod(s[i].y as int);
}

proof fn lemma_step10_keeps_mod(a: int)
    requires
        a % 10 == 0,
    ensures
        (a + 10) % 10 == 0,
        (a - 10) % 10 == 0,
{
    lemma_fundamental_div_mod(a, 10);
    assert(a + 10 == (a / 10 + 1) * 10);
    assert(a - 10 == (a / 10 - 1) * 10);
    lemma_mod_multiples_basic(a / 10 + 1, 10);
    lemma_mod_multiples_basic(a / 10 - 1, 10);
}

} // verus!
