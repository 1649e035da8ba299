//! Laws of the simulation, proved from the tick relation.

use vstd::prelude::*;

use crate::game::blocked;
use crate::game::distinct;
use crate::game::lemma_next_head_in_range;
use crate::game::next_head;
use crate::game::same_state;
use crate::game::tick_transition;
use crate::game::Direction;
use crate::game::SnakeGame;

verus! {

/// On a tick with a direction and no collision of any kind, the snake's
/// length is invariant, except exactly on an ate-food tick, where it
/// grows by exactly one.
pub proof fn lemma_tick_length(pre: SnakeGame, post: SnakeGame)
    requires
        pre.wf(),
        !pre.dead,
        !(pre.snake_direction is Still),
        !blocked(pre.head(), pre.snake_direction, pre.n()),
        !pre.snake().contains(next_head(pre.head(), pre.snake_direction, pre.n()) as usize),
        tick_transition(pre, post),
    ensures
        next_head(pre.head(), pre.snake_direction, pre.n()) == pre.food as int ==> post.snake().len()
            == pre.snake().len() + 1,
        next_head(pre.head(), pre.snake_direction, pre.n()) != pre.food as int ==> post.snake().len()
            == pre.snake().len(),
{
}

/// After a legal move the head lands exactly one row or one column away:
/// up and down shift the flat index by the grid side, left and right by
/// one. The move is illegal, and only kills, exactly when the boundary
/// condition holds on the pre-move head.
pub proof fn lemma_tick_head(pre: SnakeGame, post: SnakeGame)
    requires
        pre.wf(),
        !pre.dead,
        !(pre.snake_direction is Still),
        tick_transition(pre, post),
    ensures
        blocked(pre.head(), pre.snake_direction, pre.n()) ==> post.dead && post.snake()
            == pre.snake(),
        !blocked(pre.head(), pre.snake_direction, pre.n()) ==> post.snake().len() >= 1
            && post.head() == (match pre.snake_direction {
            Direction::Up => pre.head() - pre.n(),
            Direction::Down => pre.head() + pre.n(),
            Direction::Left => pre.head() - 1,
            Direction::Right => pre.head() + 1,
            Direction::Still => pre.head(),
        }),
        (!blocked(pre.head(), pre.snake_direction, pre.n()) && !pre.snake().contains(
            next_head(pre.head(), pre.snake_direction, pre.n()) as usize,
        )) ==> !post.dead,
{
    let nh = next_head(pre.head(), pre.snake_direction, pre.n());
    if !blocked(pre.head(), pre.snake_direction, pre.n()) {
        lemma_next_head_in_range(pre.head(), pre.snake_direction, pre.n());
        pre.snake().insert_ensures(0, nh as usize);
        let t = pre.snake().insert(0, nh as usize);
        assert(t[0] == nh as usize);
        assert(t.drop_last().len() == t.len() - 1);
        assert(t.drop_last()[0] == t[0]);
    }
}

/// The food never lies on a snake-occupied cell immediately after a tick.
pub proof fn lemma_food_off_snake(pre: SnakeGame, post: SnakeGame)
    requires
        pre.wf(),
        tick_transition(pre, post),
    ensures
        !post.snake().contains(post.food),
{
    let n = pre.n();
    let s = pre.snake();
    let d = pre.snake_direction;
    let nh = next_head(pre.head(), d, n);
    if !pre.dead && !(d is Still) && !blocked(pre.head(), d, n) {
        lemma_next_head_in_range(pre.head(), d, n);
        s.insert_ensures(0, nh as usize);
        let t = s.insert(0, nh as usize);
        if nh != pre.food as int {
            assert forall|y: usize| #[trigger] t.contains(y) implies (y == nh as usize
                || s.contains(y)) by {
                let i = choose|i: int| 0 <= i < t.len() && t[i] == y;
                if i != 0 {
                    assert(t[(i - 1) + 1] == s[i - 1]);
                }
            }
            if !s.contains(nh as usize) {
                assert forall|y: usize| #[trigger] t.drop_last().contains(y) implies t.contains(
                    y,
                ) by {
                    let i = choose|i: int| 0 <= i < t.drop_last().len() && t.drop_last()[i] == y;
                    assert(t[i] == y);
                }
            }
        }
    }
}

/// Once the snake is dead, a tick leaves the whole state unchanged; only
/// `reset` revives it.
pub proof fn lemma_dead_tick_is_noop(pre: SnakeGame, post: SnakeGame)
    requires
        pre.dead,
        tick_transition(pre, post),
    ensures
        same_state(post, pre),
{
}

/// A live tick never invalidates the state: well-formedness is preserved,
/// and the body stays free of overlaps as long as the snake lives.
pub proof fn lemma_tick_keeps_distinct(pre: SnakeGame, post: SnakeGame)
    requires
        pre.wf(),
        tick_transition(pre, post),
        !post.dead,
    ensures
        distinct(post.snake()),
{
    let n = pre.n();
    let s = pre.snake();
    let d = pre.snake_direction;
    let nh = next_head(pre.head(), d, n);
    if !pre.dead && !(d is Still) && !blocked(pre.head(), d, n) {
        s.insert_ensures(0, nh as usize);
        let t = s.insert(0, nh as usize);
        if !s.contains(nh as usize) || nh == pre.food as int {
            assert forall|i: int, j: int| 0 <= i < j < t.len() implies t[i] != t[j] by {
                assert(t[(j - 1) + 1] == s[j - 1]);
                if i == 0 {
                    if t[i] == t[j] {
                        assert(s.contains(nh as usize));
                    }
                } else {
                    assert(t[(i - 1) + 1] == s[i - 1]);
                }
            }
            assert forall|i: int, j: int| 0 <= i < j < t.drop_last().len() implies t.drop_last()[i]
                != t.drop_last()[j] by {
                assert(t.drop_last()[i] == t[i]);
                assert(t.drop_last()[j] == t[j]);
            }
        }
    }
}

} // verus!

