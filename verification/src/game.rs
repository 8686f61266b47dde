use vstd::prelude::*;
use crate::pages::App;

verus! {

/// One input of the push-box game.
pub enum Direction {
    Up,
    Down,
    Left,
    Right,
}

/// The board as every contract here sees it: a grid of cell codes, 1 a
/// wall, 2 floor, 3 the player, 4 the box, 5 the goal.
pub open spec fn board_of(m: Seq<Vec<i32>>) -> Seq<Seq<i32>> {
    m.map_values(|row: Vec<i32>| row@)
}

pub open spec fn wf_board(b: Seq<Seq<i32>>) -> bool {
    b.len() == 10 && forall|r: int| 0 <= r < 10 ==> (#[trigger] b[r]).len() == 10
}

pub open spec fn row_player(row: Seq<i32>, c: int) -> Option<int>
    decreases row.len() - c,
    when 0 <= c
{
    if c >= row.len() {
        None
    } else if row[c] == 3 {
        Some(c)
    } else {
        row_player(row, c + 1)
    }
}

pub open spec fn find_player_from(b: Seq<Seq<i32>>, r: int) -> Option<(int, int)>
    decreases b.len() - r,
    when 0 <= r
{
    if r >= b.len() {
        None
    } else {
        match row_player(b[r], 0) {
            Some(c) => Some((r, c)),
            None => find_player_from(b, r + 1),
        }
    }
}

/// The first player cell in row-major order, as the walk finds it.
pub open spec fn find_player(b: Seq<Seq<i32>>) -> Option<(int, int)> {
    find_player_from(b, 0)
}

proof fn lemma_row_player_from(row: Seq<i32>, c: int, j: int)
    requires
        0 <= c <= j <= row.len(),
        forall|k: int| c <= k < j ==> row[k] != 3,
        j == row.len() || row[j] == 3,
    ensures
        row_player(row, c) == (if j == row.len() { None } else { Some(j) }),
    decreases j - c,
{
    if c < j {
        lemma_row_player_from(row, c + 1, j);
    }
}

proof fn lemma_find_player_from(b: Seq<Seq<i32>>, r: int, t: int)
    requires
        0 <= r <= t <= b.len(),
        forall|k: int| r <= k < t ==> row_player(#[trigger] b[k], 0) is None,
    ensures
        find_player_from(b, r) == (if t == b.len() { None::<(int, int)> } else {
            match row_player(b[t], 0) {
                Some(c) => Some((t, c)),
                None => find_player_from(b, t + 1),
            }
        }),
    decreases t - r,
{
    if r < t {
        lemma_find_player_from(b, r + 1, t);
    }
}

pub open spec fn put(b: Seq<Seq<i32>>, r: int, c: int, v: i32) -> Seq<Seq<i32>> {
    b.update(r, b[r].update(c, v))
}

/// Whether the shell may feed this input to the walk without touching a
/// cell outside the grid: the player must not sit on the edge the input
/// points at, nor push a box over it.
pub open spec fn step_allowed(b: Seq<Seq<i32>>, dir: Direction) -> bool {
    match find_player(b) {
        None => true,
        Some((r, c)) => match dir {
            Direction::Up => r >= 1,
            Direction::Down => r <= 8 && (b[r + 1][c] == 4 ==> r <= 7),
            Direction::Left => c >= 1,
            Direction::Right => c <= 8 && (b[r][c + 1] == 4 ==> c <= 7),
        },
    }
}

/// One move: the player steps onto free ground, pushes the box one cell
/// when the cell behind it is free, and otherwise stays.
pub open spec fn step_result(b: Seq<Seq<i32>>, dir: Direction) -> Seq<Seq<i32>> {
    match find_player(b) {
        None => b,
        Some((r, c)) => match dir {
            Direction::Up => {
                let v1 = b[r - 1][c];
                if v1 == 1 {
                    b
                } else if v1 == 4 {
                    if r - 1 >= 1 && b[r - 2][c] != 1 {
                        put(put(put(b, r - 2, c, 4), r - 1, c, 3), r, c, 2)
                    } else {
                        b
                    }
                } else {
                    put(put(b, r - 1, c, 3), r, c, 2)
                }
            },
            Direction::Down => {
                let v1 = b[r + 1][c];
                if v1 == 1 {
                    b
                } else if v1 == 4 {
                    if r + 2 <= 10 && b[r + 2][c] != 1 {
                        put(put(put(b, r + 2, c, 4), r + 1, c, 3), r, c, 2)
                    } else {
                        b
                    }
                } else {
                    put(put(b, r + 1, c, 3), r, c, 2)
                }
            },
            Direction::Left => {
                let v1 = b[r][c - 1];
                if v1 == 1 {
                    b
                } else if v1 == 4 {
                    if c - 1 >= 1 && b[r][c - 2] != 1 {
                        put(put(put(b, r, c - 2, 4), r, c - 1, 3), r, c, 2)
                    } else {
                        b
                    }
                } else {
                    put(put(b, r, c - 1, 3), r, c, 2)
                }
            },
            Direction::Right => {
                let v1 = b[r][c + 1];
                if v1 == 1 {
                    b
                } else if v1 == 4 {
                    if c + 2 <= 10 && b[r][c + 2] != 1 {
                        put(put(put(b, r, c + 2, 4), r, c + 1, 3), r, c, 2)
                    } else {
                        b
                    }
                } else {
                    put(put(b, r, c + 1, 3), r, c, 2)
                }
            },
        },
    }
}

fn copy_row(row: &Vec<i32>) -> (r: Vec<i32>)
    ensures
        r@ == row@,
{
    let mut out: Vec<i32> = Vec::new();
    let mut i: usize = 0;
    while i < row.len()
        invariant
            0 <= i <= row@.len(),
            out@ =~= row@.subrange(0, i as int),
        decreases row.len() - i,
    {
        out.push(row[i]);
        i = i + 1;
    }
    proof {
        assert(out@ =~= row@);
    }
    out
}

fn set_cell(map: &mut Vec<Vec<i32>>, r: usize, c: usize, v: i32)
    requires
        wf_board(board_of(old(map)@)),
        r < 10,
        c < 10,
    ensures
        board_of(final(map)@) == put(board_of(old(map)@), r as int, c as int, v),
        wf_board(board_of(final(map)@)),
{
    proof {
        assert(board_of(map@).len() == map@.len());
        assert(board_of(map@)[r as int] == map@[r as int]@);
        assert(board_of(map@)[r as int].len() == 10);
    }
    let mut row = copy_row(&map[r]);
    row.set(c, v);
    map.set(r, row);
    proof {
        let b1 = put(board_of(old(map)@), r as int, c as int, v);
        assert(board_of(map@) =~= b1);
        assert forall|k: int| 0 <= k < 10 implies (#[trigger] b1[k]).len() == 10 by {
            assert(board_of(old(map)@)[k].len() == 10);
        }
    }
}

/// Carries out one move of the push-box game on the grid.
#[verifier::loop_isolation(false)]
pub fn push_box_step(map: &mut Vec<Vec<i32>>, dir: &Direction)
    requires
        wf_board(board_of(old(map)@)),
        step_allowed(board_of(old(map)@), *dir),
    ensures
        board_of(final(map)@) == step_result(board_of(old(map)@), *dir),
        wf_board(board_of(final(map)@)),
{
    let ghost b0 = board_of(map@);
    proof {
        assert(map@.len() == 10);
        assert forall|k: int| 0 <= k < 10 implies (#[trigger] map@[k])@.len() == 10 by {
            assert(b0[k] == map@[k]@);
            assert(b0[k].len() == 10);
        }
    }
    let mut r: usize = 0;
    while r < 10
        invariant
            0 <= r <= 10,
            map@ == old(map)@,
            forall|k: int| 0 <= k < r ==> row_player(#[trigger] b0[k], 0) is None,
        decreases 10 - r,
    {
        let mut c: usize = 0;
        while c < 10
            invariant
                0 <= c <= 10,
                r < 10,
                map@ == old(map)@,
                forall|k: int| 0 <= k < c ==> b0[r as int][k] != 3,
            decreases 10 - c,
        {
            if map[r][c] == 3 {
                proof {
                    lemma_row_player_from(b0[r as int], 0, c as int);
                    lemma_find_player_from(b0, 0, r as int);
                    assert(find_player(b0) == Some((r as int, c as int)));
                }
                match dir {
                    Direction::Up => {
                        let v1 = map[r - 1][c];
                        if v1 != 1 {
                            if v1 == 4 {
                                if r - 1 >= 1 && map[r - 2][c] != 1 {
                                    set_cell(map, r - 2, c, 4);
                                    set_cell(map, r - 1, c, 3);
                                    set_cell(map, r, c, 2);
                                }
                            } else {
                                set_cell(map, r - 1, c, 3);
                                set_cell(map, r, c, 2);
                            }
                        }
                    },
                    Direction::Down => {
                        let v1 = map[r + 1][c];
                        if v1 != 1 {
                            if v1 == 4 {
                                if r + 2 <= 10 && map[r + 2][c] != 1 {
                                    set_cell(map, r + 2, c, 4);
                                    set_cell(map, r + 1, c, 3);
                                    set_cell(map, r, c, 2);
                                }
                            } else {
                                set_cell(map, r + 1, c, 3);
                                set_cell(map, r, c, 2);
                            }
                        }
                    },
                    Direction::Left => {
                        let v1 = map[r][c - 1];
                        if v1 != 1 {
                            if v1 == 4 {
                                if c - 1 >= 1 && map[r][c - 2] != 1 {
                                    set_cell(map, r, c - 2, 4);
                                    set_cell(map, r, c - 1, 3);
                                    set_cell(map, r, c, 2);
                                }
                            } else {
                                set_cell(map, r, c - 1, 3);
                                set_cell(map, r, c, 2);
                            }
                        }
                    },
                    Direction::Right => {
                        let v1 = map[r][c + 1];
                        if v1 != 1 {
                            if v1 == 4 {
                                if c + 2 <= 10 && map[r][c + 2] != 1 {
                                    set_cell(map, r, c + 2, 4);
                                    set_cell(map, r, c + 1, 3);
                                    set_cell(map, r, c, 2);
                                }
                            } else {
                                set_cell(map, r, c + 1, 3);
                                set_cell(map, r, c, 2);
                            }
                        }
                    },
                }
                return;
            }
            c = c + 1;
        }
        proof {
            lemma_row_player_from(b0[r as int], 0, 10);
        }
        r = r + 1;
    }
    proof {
        lemma_find_player_from(b0, 0, 10);
        assert(find_player(b0) is None);
    }
}

pub open spec fn row_has(row: Seq<i32>, v: i32) -> bool {
    exists|k: int| 0 <= k < row.len() && row[k] == v
}

pub open spec fn board_has(b: Seq<Seq<i32>>, v: i32) -> bool {
    exists|r: int| 0 <= r < b.len() && row_has(#[trigger] b[r], v)
}

/// Whether no goal cell is left on the board: then the round is won.
#[verifier::loop_isolation(false)]
pub fn board_cleared(map: &Vec<Vec<i32>>) -> (r: bool)
    requires
        wf_board(board_of(map@)),
    ensures
        r == !board_has(board_of(map@), 5),
{
    let ghost b = board_of(map@);
    proof {
        assert(map@.len() == 10);
        assert forall|k: int| 0 <= k < 10 implies (#[trigger] map@[k])@.len() == 10 by {
            assert(b[k] == map@[k]@);
            assert(b[k].len() == 10);
        }
    }
    let mut i: usize = 0;
    while i < 10
        invariant
            0 <= i <= 10,
            forall|k: int| 0 <= k < i ==> !row_has(#[trigger] b[k], 5),
        decreases 10 - i,
    {
        let mut j: usize = 0;
        while j < 10
            invariant
                0 <= j <= 10,
                i < 10,
                forall|k: int| 0 <= k < j ==> b[i as int][k] != 5,
            decreases 10 - j,
        {
            if map[i][j] == 5 {
                proof {
                    assert(row_has(b[i as int], 5));
                }
                return false;
            }
            j = j + 1;
        }
        proof {
            assert(!row_has(b[i as int], 5)) by {
                if row_has(b[i as int], 5) {
                    let k = choose|k: int| 0 <= k < b[i as int].len()
                        && b[i as int][k] == 5;
                    assert(b[i as int][k] != 5);
                }
            }
        }
        i = i + 1;
    }
    proof {
        assert(!board_has(b, 5)) by {
            if board_has(b, 5) {
                let r = choose|r: int| 0 <= r < b.len() && row_has(b[r], 5);
                assert(!row_has(b[r], 5));
            }
        }
    }
    true
}

impl App {
    /// One game input, as the shell's update step takes it: the move is
    /// logged, the board moves, and clearing the last goal sets the win
    /// notice.
    pub fn apply_direction(&mut self, dir: &Direction)
        requires
            wf_board(board_of(old(self).current_map@)),
            step_allowed(board_of(old(self).current_map@), *dir),
        ensures
            final(self).text@ == old(self).text@ + (match *dir {
                Direction::Up => "上"@,
                Direction::Down => "下"@,
                Direction::Left => "左"@,
                Direction::Right => "右"@,
            }),
            board_of(final(self).current_map@)
                == step_result(board_of(old(self).current_map@), *dir),
            final(self).info@ == (if !board_has(board_of(final(self).current_map@), 5) {
                "结果：过关！"@
            } else {
                old(self).info@
            }),
            final(self).state == old(self).state,
    {
        match dir {
            Direction::Up => self.text.append("上"),
            Direction::Down => self.text.append("下"),
            Direction::Left => self.text.append("左"),
            Direction::Right => self.text.append("右"),
        }
        push_box_step(&mut self.current_map, dir);
        if board_cleared(&self.current_map) {
            self.info = String::from_str("结果：过关！");
        }
    }
}

} // verus!
