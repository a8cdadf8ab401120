use vstd::prelude::*;

verus! {

/// Number of rows and of columns of the board.
pub const SIZE: usize = 8;

/// The playing grid: `'.'` marks an empty cell, `'B'` and `'W'` the two colours.
pub type Board = [[char; SIZE]; SIZE];

pub open spec fn cell(b: Board, r: int, c: int) -> char {
    b@[r]@[c]
}

pub open spec fn on_board(r: int, c: int) -> bool {
    0 <= r < SIZE as int && 0 <= c < SIZE as int
}

/// The colour that `p` plays against.
pub open spec fn opponent_of(p: char) -> char {
    if p == 'B' {
        'W'
    } else {
        'B'
    }
}

/// What an index letter (`a`..`h`, either case) stands for.
pub open spec fn letter_index(ch: char) -> Option<usize> {
    if 'a' <= ch && ch <= 'h' {
        Some((ch as u32 - 'a' as u32) as usize)
    } else if 'A' <= ch && ch <= 'H' {
        Some((ch as u32 - 'A' as u32) as usize)
    } else {
        None
    }
}

/// A move written as a row letter followed by a column letter.
pub open spec fn parsed(s: Seq<char>) -> Option<(usize, usize)> {
    if s.len() == 2 && letter_index(s[0]) is Some && letter_index(s[1]) is Some {
        Some((letter_index(s[0])->0, letter_index(s[1])->0))
    } else {
        None
    }
}

pub open spec fn initial_cell(r: int, c: int) -> char {
    if (r == 3 && c == 3) || (r == 4 && c == 4) {
        'W'
    } else if (r == 3 && c == 4) || (r == 4 && c == 3) {
        'B'
    } else {
        '.'
    }
}

/// Row step of each of the eight directions: N, S, W, E, NW, NE, SW, SE.
pub open spec fn dir_row(d: int) -> int {
    if d == 0 || d == 4 || d == 5 {
        -1
    } else if d == 1 || d == 6 || d == 7 {
        1
    } else {
        0
    }
}

/// Column step of each of the eight directions: N, S, W, E, NW, NE, SW, SE.
pub open spec fn dir_col(d: int) -> int {
    if d == 2 || d == 4 || d == 6 {
        -1
    } else if d == 3 || d == 5 || d == 7 {
        1
    } else {
        0
    }
}

/// The coordinate `k` steps from `x` with step `dx`.
pub open spec fn ray(x: int, dx: int, k: int) -> int {
    x + k * dx
}

/// Seen from `(row, col)` towards `d`, the `k`-th cell is on the board and holds `p`,
/// and every cell strictly between is on the board and holds the opponent of `p`.
pub open spec fn closes_at(b: Board, p: char, row: int, col: int, d: int, k: int) -> bool {
    &&& on_board(ray(row, dir_row(d), k), ray(col, dir_col(d), k))
    &&& cell(b, ray(row, dir_row(d), k), ray(col, dir_col(d), k)) == p
    &&& forall|j: int|
        1 <= j < k ==> #[trigger] on_board(ray(row, dir_row(d), j), ray(col, dir_col(d), j))
            && cell(b, ray(row, dir_row(d), j), ray(col, dir_col(d), j)) == opponent_of(p)
}

/// A move at `(row, col)` would enclose at least one opposing piece towards `d`.
pub open spec fn flanks(b: Board, p: char, row: int, col: int, d: int) -> bool {
    exists|k: int| 2 <= k && #[trigger] closes_at(b, p, row, col, d, k)
}

/// `p` may play on the empty cell `(row, col)` when it encloses opponents in some direction.
pub open spec fn valid_move(b: Board, p: char, row: int, col: int) -> bool {
    &&& cell(b, row, col) == '.'
    &&& exists|d: int| 0 <= d < 8 && #[trigger] flanks(b, p, row, col, d)
}

pub open spec fn any_valid_move(b: Board, p: char) -> bool {
    exists|r: int, c: int| on_board(r, c) && #[trigger] valid_move(b, p, r, c)
}

/// `(r, c)` lies strictly between `(row, col)` and a closing piece of `p` in one of
/// the directions among the first `n`.
pub open spec fn flipped_within(b: Board, p: char, row: int, col: int, n: int, r: int, c: int) -> bool {
    exists|d: int, j: int, k: int|
        #![trigger closes_at(b, p, row, col, d, k), ray(row, dir_row(d), j)]
        0 <= d < n && 1 <= j < k && closes_at(b, p, row, col, d, k) && r == ray(row, dir_row(d), j)
            && c == ray(col, dir_col(d), j)
}

/// The cell `(r, c)` after `p` plays at `(row, col)` on `b`.
pub open spec fn cell_after_move(b: Board, p: char, row: int, col: int, r: int, c: int) -> char {
    if (r == row && c == col) || flipped_within(b, p, row, col, 8, r, c) {
        p
    } else {
        cell(b, r, c)
    }
}

/// How many of the first `n` entries of `s` equal `ch`.
pub open spec fn count_in(s: Seq<char>, ch: char, n: int) -> nat
    decreases n,
{
    if n <= 0 {
        0
    } else {
        count_in(s, ch, n - 1) + if s[n - 1] == ch {
            1nat
        } else {
            0nat
        }
    }
}

/// How many cells of the first `n` rows of `b` hold `ch`.
pub open spec fn count_rows(b: Board, ch: char, n: int) -> nat
    decreases n,
{
    if n <= 0 {
        0
    } else {
        count_rows(b, ch, n - 1) + count_in(b@[n - 1]@, ch, SIZE as int)
    }
}

pub open spec fn count_board(b: Board, ch: char) -> nat {
    count_rows(b, ch, SIZE as int)
}

proof fn lemma_count_in_bound(s: Seq<char>, ch: char, n: int)
    requires
        0 <= n,
    ensures
        count_in(s, ch, n) <= n,
    decreases n,
{
    if n > 0 {
        lemma_count_in_bound(s, ch, n - 1);
    }
}

proof fn lemma_count_rows_bound(b: Board, ch: char, n: int)
    requires
        0 <= n,
    ensures
        count_rows(b, ch, n) <= n * SIZE,
    decreases n,
{
    if n > 0 {
        lemma_count_rows_bound(b, ch, n - 1);
        lemma_count_in_bound(b@[n - 1]@, ch, SIZE as int);
    }
}

/// Reads a move such as `"cd"`: row letter then column letter, each `a`..`h` in either
/// case. Anything else, extra characters included, is refused.
pub fn parse_input(input: &str) -> (r: Option<(usize, usize)>)
    ensures
        r == parsed(input@),
{
    if input.unicode_len() != 2 {
        return None;
    }
    let row = letter_value(input.get_char(0));
    let col = letter_value(input.get_char(1));
    match (row, col) {
        (Some(r), Some(c)) => Some((r, c)),
        _ => None,
    }
}

fn letter_value(ch: char) -> (r: Option<usize>)
    ensures
        r == letter_index(ch),
{
    if 'a' <= ch && ch <= 'h' {
        Some((ch as u32 - 'a' as u32) as usize)
    } else if 'A' <= ch && ch <= 'H' {
        Some((ch as u32 - 'A' as u32) as usize)
    } else {
        None
    }
}

/// The starting position: two pieces of each colour crossed in the centre.
pub fn create_initial_board() -> (board: Board)
    ensures
        forall|r: int, c: int| on_board(r, c) ==> cell(board, r, c) == initial_cell(r, c),
{
    let mut board: Board = [['.';SIZE];SIZE];
    board[3][3] = 'W';
    board[3][4] = 'B';
    board[4][3] = 'B';
    board[4][4] = 'W';
    board
}

fn direction(d: usize) -> (r: (isize, isize))
    requires
        d < 8,
    ensures
        r.0 as int == dir_row(d as int),
        r.1 as int == dir_col(d as int),
{
    match d {
        0 => (-1, 0),
        1 => (1, 0),
        2 => (0, -1),
        3 => (0, 1),
        4 => (-1, -1),
        5 => (-1, 1),
        6 => (1, -1),
        _ => (1, 1),
    }
}

/// The coordinate `k` steps from `x` with step `dx`, as a machine integer.
fn ray_at(x: usize, dx: isize, k: usize) -> (r: isize)
    requires
        x < SIZE,
        k <= SIZE,
        -1 <= dx <= 1,
    ensures
        r as int == ray(x as int, dx as int, k as int),
{
    proof {
        assert(-8 <= (k as int) * (dx as int) <= 8) by (nonlinear_arith)
            requires
                0 <= k <= 8,
                -1 <= dx <= 1,
        ;
    }
    x as isize + (k as isize) * dx
}

/// A ray that stays on the board is at most seven steps long.
proof fn lemma_ray_length(row: int, col: int, d: int, k: int)
    requires
        on_board(row, col),
        0 <= d < 8,
        0 <= k,
        on_board(ray(row, dir_row(d), k), ray(col, dir_col(d), k)),
    ensures
        k < SIZE,
{
    if dir_row(d) == 1 {
        assert(k * 1 == k);
    } else if dir_row(d) == -1 {
        assert(k * -1 == -k);
    } else if dir_col(d) == 1 {
        assert(k * 1 == k);
    } else {
        assert(k * -1 == -k);
    }
}

/// Walks from `(row, col)` towards `d` over opposing pieces; returns the number of steps
/// to the first cell that is off the board or does not hold an opposing piece.
fn scan(board: &Board, player: char, row: usize, col: usize, d: usize) -> (k: usize)
    requires
        row < SIZE,
        col < SIZE,
        d < 8,
    ensures
        1 <= k <= SIZE,
        forall|j: int|
            1 <= j < k ==> #[trigger] on_board(ray(row as int, dir_row(d as int), j), ray(col as int, dir_col(d as int), j))
                && cell(*board, ray(row as int, dir_row(d as int), j), ray(col as int, dir_col(d as int), j))
                == opponent_of(player),
        on_board(ray(row as int, dir_row(d as int), k as int), ray(col as int, dir_col(d as int), k as int))
            ==> cell(*board, ray(row as int, dir_row(d as int), k as int), ray(col as int, dir_col(d as int), k as int))
            != opponent_of(player),
{
    let opponent = if player == 'B' { 'W' } else { 'B' };
    let (dr, dc) = direction(d);
    let ghost gr = dir_row(d as int);
    let ghost gc = dir_col(d as int);
    let mut k: usize = 1;
    let mut r: isize = row as isize + dr;
    let mut c: isize = col as isize + dc;
    assert(r == ray(row as int, gr, 1) && c == ray(col as int, gc, 1));
    while 0 <= r && r < SIZE as isize && 0 <= c && c < SIZE as isize && board[r as usize][c as usize] == opponent
        invariant
            row < SIZE,
            col < SIZE,
            d < 8,
            gr == dir_row(d as int),
            gc == dir_col(d as int),
            dr as int == gr,
            dc as int == gc,
            opponent == opponent_of(player),
            1 <= k <= SIZE,
            r as int == ray(row as int, gr, k as int),
            c as int == ray(col as int, gc, k as int),
            forall|j: int|
                1 <= j < k ==> #[trigger] on_board(ray(row as int, gr, j), ray(col as int, gc, j))
                    && cell(*board, ray(row as int, gr, j), ray(col as int, gc, j)) == opponent,
        decreases SIZE - k,
    {
        assert(on_board(ray(row as int, gr, k as int), ray(col as int, gc, k as int)));
        assert(cell(*board, ray(row as int, gr, k as int), ray(col as int, gc, k as int)) == opponent);
        proof {
            lemma_ray_length(row as int, col as int, d as int, k as int);
            assert(ray(row as int, gr, k + 1) == ray(row as int, gr, k as int) + gr) by (nonlinear_arith);
            assert(ray(col as int, gc, k + 1) == ray(col as int, gc, k as int) + gc) by (nonlinear_arith);
        }
        k = k + 1;
        r = r + dr;
        c = c + dc;
    }
    k
}

/// Relates the outcome of `scan` to the closing pieces towards `d`: a closing piece can
/// only stand at the first cell that is not an opposing piece.
proof fn lemma_scan_closes(b: Board, p: char, row: int, col: int, d: int, k: int, k2: int)
    requires
        1 <= k,
        forall|j: int|
            1 <= j < k ==> #[trigger] on_board(ray(row, dir_row(d), j), ray(col, dir_col(d), j))
                && cell(b, ray(row, dir_row(d), j), ray(col, dir_col(d), j)) == opponent_of(p),
        on_board(ray(row, dir_row(d), k), ray(col, dir_col(d), k))
            ==> cell(b, ray(row, dir_row(d), k), ray(col, dir_col(d), k)) != opponent_of(p),
        closes_at(b, p, row, col, d, k2),
        1 <= k2,
    ensures
        k2 == k,
{
    if k2 < k {
        assert(on_board(ray(row, dir_row(d), k2), ray(col, dir_col(d), k2)));
    } else if k2 > k {
        assert(on_board(ray(row, dir_row(d), k), ray(col, dir_col(d), k)));
    }
}

/// Whether `player` may place a piece on `(row, col)`: the cell is empty and, in at least
/// one direction, a straight run of opposing pieces is closed by one of `player`'s own.
pub fn is_valid_move(board: &Board, player: char, row: usize, col: usize) -> (r: bool)
    requires
        row < SIZE,
        col < SIZE,
    ensures
        r == valid_move(*board, player, row as int, col as int),
{
    if board[row][col] != '.' {
        return false;
    }
    let mut d: usize = 0;
    while d < 8
        invariant
            row < SIZE,
            col < SIZE,
            d <= 8,
            cell(*board, row as int, col as int) == '.',
            forall|e: int| 0 <= e < d ==> !#[trigger] flanks(*board, player, row as int, col as int, e),
        decreases 8 - d,
    {
        let k = scan(board, player, row, col, d);
        let (dr, dc) = direction(d);
        let r = ray_at(row, dr, k);
        let c = ray_at(col, dc, k);
        if k >= 2 && 0 <= r && r < SIZE as isize && 0 <= c && c < SIZE as isize
            && board[r as usize][c as usize] == player {
            assert(closes_at(*board, player, row as int, col as int, d as int, k as int));
            assert(flanks(*board, player, row as int, col as int, d as int));
            return true;
        }
        assert forall|k2: int| 2 <= k2 implies !closes_at(*board, player, row as int, col as int, d as int, k2) by {
            if closes_at(*board, player, row as int, col as int, d as int, k2) {
                lemma_scan_closes(*board, player, row as int, col as int, d as int, k as int, k2);
            }
        }
        d = d + 1;
    }
    false
}

/// Whether `player` has at least one valid move anywhere on the board.
pub fn has_valid_moves(board: &Board, player: char) -> (r: bool)
    ensures
        r == any_valid_move(*board, player),
{
    let mut row: usize = 0;
    while row < SIZE
        invariant
            row <= SIZE,
            forall|r: int, c: int| 0 <= r < row && 0 <= c < SIZE ==> !#[trigger] valid_move(*board, player, r, c),
        decreases SIZE - row,
    {
        let mut col: usize = 0;
        while col < SIZE
            invariant
                row < SIZE,
                col <= SIZE,
                forall|r: int, c: int| 0 <= r < row && 0 <= c < SIZE ==> !#[trigger] valid_move(*board, player, r, c),
                forall|c: int| 0 <= c < col ==> !#[trigger] valid_move(*board, player, row as int, c),
            decreases SIZE - col,
        {
            if is_valid_move(board, player, row, col) {
                assert(on_board(row as int, col as int));
                return true;
            }
            col = col + 1;
        }
        row = row + 1;
    }
    false
}

/// The number of black pieces and the number of white pieces on the board.
pub fn count_pieces(board: &Board) -> (r: (usize, usize))
    ensures
        r.0 == count_board(*board, 'B'),
        r.1 == count_board(*board, 'W'),
{
    let mut black_count: usize = 0;
    let mut white_count: usize = 0;
    let mut row: usize = 0;
    while row < SIZE
        invariant
            row <= SIZE,
            black_count == count_rows(*board, 'B', row as int),
            white_count == count_rows(*board, 'W', row as int),
        decreases SIZE - row,
    {
        let line = board[row];
        let mut col: usize = 0;
        proof {
            lemma_count_rows_bound(*board, 'B', row as int);
            lemma_count_rows_bound(*board, 'W', row as int);
        }
        while col < SIZE
            invariant
                row < SIZE,
                col <= SIZE,
                line == board@[row as int],
                black_count == count_rows(*board, 'B', row as int) + count_in(line@, 'B', col as int),
                white_count == count_rows(*board, 'W', row as int) + count_in(line@, 'W', col as int),
                count_rows(*board, 'B', row as int) <= row * SIZE,
                count_rows(*board, 'W', row as int) <= row * SIZE,
            decreases SIZE - col,
        {
            proof {
                lemma_count_in_bound(line@, 'B', col as int);
                lemma_count_in_bound(line@, 'W', col as int);
            }
            let ch = line[col];
            if ch == 'B' {
                black_count = black_count + 1;
            } else if ch == 'W' {
                white_count = white_count + 1;
            }
            col = col + 1;
        }
        row = row + 1;
    }
    (black_count, white_count)
}

/// `(r, c)` is the cell `j` steps from `(row, col)` towards `d`, for some `lo <= j < hi`.
pub open spec fn on_ray_between(row: int, col: int, d: int, lo: int, hi: int, r: int, c: int) -> bool {
    exists|j: int|
        lo <= j < hi && r == #[trigger] ray(row, dir_row(d), j) && c == ray(col, dir_col(d), j)
}

/// Places `player`'s piece on `(row, col)` and turns over every run of opposing pieces
/// that the new piece closes off against another of `player`'s pieces, in all eight
/// directions. The move is not checked for validity.
pub fn apply_move(board: &mut Board, player: char, row: usize, col: usize)
    requires
        row < SIZE,
        col < SIZE,
    ensures
        forall|r: int, c: int|
            on_board(r, c) ==> #[trigger] cell(*final(board), r, c) == cell_after_move(
                *old(board),
                player,
                row as int,
                col as int,
                r,
                c,
            ),
{
    let unchanged: Board = *board;
    board[row][col] = player;
    let mut d: usize = 0;
    while d < 8
        invariant
            row < SIZE,
            col < SIZE,
            d <= 8,
            unchanged == *old(board),
            forall|r: int, c: int|
                on_board(r, c) ==> #[trigger] cell(*board, r, c) == if (r == row && c == col)
                    || flipped_within(unchanged, player, row as int, col as int, d as int, r, c) {
                    player
                } else {
                    cell(unchanged, r, c)
                },
        decreases 8 - d,
    {
        let ghost before = *board;
        let k = scan(&unchanged, player, row, col, d);
        let (dr, dc) = direction(d);
        let end_r = ray_at(row, dr, k);
        let end_c = ray_at(col, dc, k);
        let closed = 0 <= end_r && end_r < SIZE as isize && 0 <= end_c && end_c < SIZE as isize
            && unchanged[end_r as usize][end_c as usize] == player;
        let mut j: usize = 1;
        if closed {
            assert(closes_at(unchanged, player, row as int, col as int, d as int, k as int));
            while j < k
                invariant
                    row < SIZE,
                    col < SIZE,
                    d < 8,
                    1 <= j <= k <= SIZE,
                    dr as int == dir_row(d as int),
                    dc as int == dir_col(d as int),
                    forall|i: int|
                        1 <= i < k ==> #[trigger] on_board(ray(row as int, dir_row(d as int), i), ray(col as int, dir_col(d as int), i))
                            && cell(unchanged, ray(row as int, dir_row(d as int), i), ray(col as int, dir_col(d as int), i))
                            == opponent_of(player),
                    on_board(ray(row as int, dir_row(d as int), k as int), ray(col as int, dir_col(d as int), k as int))
                        ==> cell(unchanged, ray(row as int, dir_row(d as int), k as int), ray(col as int, dir_col(d as int), k as int))
                        != opponent_of(player),
                    closes_at(unchanged, player, row as int, col as int, d as int, k as int),
                    forall|r: int, c: int|
                        on_board(r, c) ==> #[trigger] cell(*board, r, c) == if on_ray_between(
                            row as int,
                            col as int,
                            d as int,
                            1,
                            j as int,
                            r,
                            c,
                        ) {
                            player
                        } else {
                            cell(before, r, c)
                        },
                decreases k - j,
            {
                let fr = ray_at(row, dr, j);
                let fc = ray_at(col, dc, j);
                assert(on_board(ray(row as int, dir_row(d as int), j as int), ray(col as int, dir_col(d as int), j as int)));
                let ghost prev = *board;
                board[fr as usize][fc as usize] = player;
                assert(forall|r: int, c: int|
                    on_board(r, c) ==> #[trigger] cell(*board, r, c) == if r == fr && c == fc {
                        player
                    } else {
                        cell(prev, r, c)
                    });
                assert forall|r: int, c: int| on_board(r, c) implies #[trigger] cell(*board, r, c) == if on_ray_between(
                    row as int,
                    col as int,
                    d as int,
                    1,
                    j + 1,
                    r,
                    c,
                ) {
                    player
                } else {
                    cell(before, r, c)
                } by {
                    if r == fr && c == fc {
                        assert(on_ray_between(row as int, col as int, d as int, 1, j + 1, r, c));
                    } else if on_ray_between(row as int, col as int, d as int, 1, j + 1, r, c) {
                        let i = choose|i: int|
                            1 <= i < j + 1 && r == #[trigger] ray(row as int, dir_row(d as int), i) && c == ray(col as int, dir_col(d as int), i);
                        assert(i != j);
                        assert(on_ray_between(row as int, col as int, d as int, 1, j as int, r, c));
                    }
                }
                j = j + 1;
            }
        }
        assert forall|r: int, c: int| on_board(r, c) implies #[trigger] cell(*board, r, c) == if (r == row && c == col)
            || flipped_within(unchanged, player, row as int, col as int, d + 1, r, c) {
            player
        } else {
            cell(unchanged, r, c)
        } by {
            let now = flipped_within(unchanged, player, row as int, col as int, d + 1, r, c);
            let was = flipped_within(unchanged, player, row as int, col as int, d as int, r, c);
            let here = closed && on_ray_between(row as int, col as int, d as int, 1, k as int, r, c);
            if here {
                let i = choose|i: int|
                    1 <= i < k && r == #[trigger] ray(row as int, dir_row(d as int), i) && c == ray(col as int, dir_col(d as int), i);
                assert(closes_at(unchanged, player, row as int, col as int, d as int, k as int));
                assert(now);
            }
            if now && !was {
                let (e, i, k2) = choose|e: int, i: int, k2: int|
                    #![trigger closes_at(unchanged, player, row as int, col as int, e, k2), ray(row as int, dir_row(e), i)]
                    0 <= e < d + 1 && 1 <= i < k2 && closes_at(unchanged, player, row as int, col as int, e, k2)
                        && r == ray(row as int, dir_row(e), i) && c == ray(col as int, dir_col(e), i);
                if e < d {
                    assert(was);
                } else {
                    lemma_scan_closes(unchanged, player, row as int, col as int, d as int, k as int, k2);
                    assert(on_ray_between(row as int, col as int, d as int, 1, k as int, r, c));
                }
                assert(here);
            }
            if !closed {
                assert(j == 1);
                assert(!on_ray_between(row as int, col as int, d as int, 1, j as int, r, c));
            }
        }
        d = d + 1;
    }
}

/// How a finished game ended, with the winning margin.
#[derive(PartialEq, Eq, Debug, Clone, Copy)]
pub enum Outcome {
    BlackWins(usize),
    WhiteWins(usize),
    Draw,
}

/// The result of the game on `board`: the colour with more pieces wins by the difference.
pub fn outcome(board: &Board) -> (r: Outcome)
    ensures
        count_board(*board, 'B') > count_board(*board, 'W') ==> r == Outcome::BlackWins(
            (count_board(*board, 'B') - count_board(*board, 'W')) as usize,
        ),
        count_board(*board, 'W') > count_board(*board, 'B') ==> r == Outcome::WhiteWins(
            (count_board(*board, 'W') - count_board(*board, 'B')) as usize,
        ),
        count_board(*board, 'B') == count_board(*board, 'W') ==> r == Outcome::Draw,
{
    let (black_count, white_count) = count_pieces(board);
    if black_count > white_count {
        Outcome::BlackWins(black_count - white_count)
    } else if white_count > black_count {
        Outcome::WhiteWins(white_count - black_count)
    } else {
        Outcome::Draw
    }
}

} // verus!
