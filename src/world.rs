use vstd::prelude::*;

use crate::pattern::{pattern_chars, pattern_text, string_from_chars};
use crate::life::{
    in_grid, live_at, neighbours, next_generation, next_live, pulsar, pulsar_offset, toggled, within,
    PULSAR_LEFT, PULSAR_TOP,
};

verus! {

/// A bounded grid of cells; `alive` lists the live cells as `(row, col)`, each once.
/// Beside the list the world keeps the live cells inside the grid as a matrix with a dead
/// border, which answers membership in constant time and feeds the neighbour counts.
pub struct World {
    pub width: u16,
    pub height: u16,
    pub alive: Vec<(u16, u16)>,
    pub matrix: Vec<Vec<u32>>,
}

/// Whether `m` is the padded matrix of `cells`: `height + 2` rows of `width + 2` entries,
/// with a dead border all round and `1` at `[row + 1][col + 1]` exactly for each live cell.
pub open spec fn padded_matrix_of(m: Seq<Vec<u32>>, cells: Set<(u16, u16)>, width: int, height: int) -> bool {
    &&& m.len() == height + 2
    &&& forall|i: int| 0 <= i < height + 2 ==> #[trigger] m[i]@.len() == width + 2
    &&& forall|i: int, j: int|
        0 <= i < height + 2 && 0 <= j < width + 2 ==> (#[trigger] m[i]@[j] == 1 <==> live_at(
            cells,
            width,
            height,
            i - 1,
            j - 1,
        )) && (m[i]@[j] == 0 || m[i]@[j] == 1)
}

/// `p` comes before `(row, col)` in row-major order.
pub open spec fn precedes(p: (u16, u16), row: int, col: int) -> bool {
    p.0 < row || (p.0 == row && p.1 < col)
}

impl World {
    /// The set of live cells.
    pub open spec fn cells(&self) -> Set<(u16, u16)> {
        self.alive@.to_set()
    }

    /// No cell is listed twice, and the matrix holds exactly the listed cells inside the grid.
    pub open spec fn wf(&self) -> bool {
        &&& self.alive@.no_duplicates()
        &&& padded_matrix_of(self.matrix@, self.cells(), self.width as int, self.height as int)
    }

    /// An empty world of the given size.
    pub fn new(width: u16, height: u16) -> (r: Self)
        ensures
            r.wf(),
            r.width == width,
            r.height == height,
            r.alive@ == Seq::<(u16, u16)>::empty(),
    {
        let mut world = World { width, height, alive: Vec::new(), matrix: Vec::new() };
        world.matrix = world.get_alives_as_matrix_with_puffer();
        world
    }

    /// Returns the same world with its width set to `w`.
    pub fn width(self, w: u16) -> (r: Self)
        requires
            self.wf(),
        ensures
            r.wf(),
            r.width == w,
            r.height == self.height,
            r.alive@ == self.alive@,
    {
        let mut world = World { width: w, height: self.height, alive: self.alive, matrix: Vec::new() };
        world.matrix = world.get_alives_as_matrix_with_puffer();
        world
    }

    /// Returns the same world with its height set to `h`.
    pub fn height(self, h: u16) -> (r: Self)
        requires
            self.wf(),
        ensures
            r.wf(),
            r.width == self.width,
            r.height == h,
            r.alive@ == self.alive@,
    {
        let mut world = World { width: self.width, height: h, alive: self.alive, matrix: Vec::new() };
        world.matrix = world.get_alives_as_matrix_with_puffer();
        world
    }

    /// Index of `(row, col)` in `alive`, if it is listed.
    fn position(&self, row: u16, col: u16) -> (r: Option<usize>)
        ensures
            match r {
                Some(i) => i < self.alive@.len() && self.alive@[i as int] == (row, col),
                None => !self.alive@.contains((row, col)),
            },
    {
        let mut i: usize = 0;
        while i < self.alive.len()
            invariant
                i <= self.alive@.len(),
                forall|k: int| 0 <= k < i ==> self.alive@[k] != (row, col),
            decreases self.alive@.len() - i,
        {
            if self.alive[i].0 == row && self.alive[i].1 == col {
                return Some(i);
            }
            i = i + 1;
        }
        None
    }

    /// Whether `(row, col)` is listed as live: read from the matrix inside the grid, and
    /// looked up in the list for a cell outside it that has not been pruned yet.
    pub fn is_alive(&self, row: u16, col: u16) -> (r: bool)
        requires
            self.wf(),
        ensures
            r == self.cells().contains((row, col)),
    {
        if row < self.height && col < self.width {
            assert(self.matrix@[row + 1]@.len() == self.width + 2);
            self.matrix[row as usize + 1][col as usize + 1] == 1
        } else {
            self.position(row, col).is_some()
        }
    }

    /// Flips `(row, col)` between live and dead; a cell outside the grid is left alone.
    pub fn toggle(&mut self, row: u16, col: u16)
        requires
            old(self).wf(),
        ensures
            final(self).wf(),
            final(self).width == old(self).width,
            final(self).height == old(self).height,
            final(self).cells() == toggled(
                old(self).cells(),
                old(self).width as int,
                old(self).height as int,
                row,
                col,
            ),
    {
        if row >= self.height || col >= self.width {
            return;
        }
        let ghost before = self.alive@;
        let ghost cells = self.cells();
        let ghost w = self.width as int;
        let ghost h = self.height as int;
        proof {
            assert(self.matrix@[row + 1]@.len() == w + 2);
        }
        let flipped: u32 = if self.matrix[row as usize + 1][col as usize + 1] == 1 { 0 } else { 1 };
        let ghost m0 = self.matrix@;
        self.matrix[row as usize + 1][col as usize + 1] = flipped;
        proof {
            let t = toggled(cells, w, h, row, col);
            assert forall|i: int, j: int|
                0 <= i < h + 2 && 0 <= j < w + 2 implies (#[trigger] self.matrix@[i]@[j] == 1 <==> live_at(
                    t,
                    w,
                    h,
                    i - 1,
                    j - 1,
                )) && (self.matrix@[i]@[j] == 0 || self.matrix@[i]@[j] == 1) by {
                if i == row + 1 && j == col + 1 {
                } else {
                    assert(self.matrix@[i]@[j] == m0[i]@[j]);
                    if in_grid(w, h, i - 1, j - 1) {
                        assert(((i - 1) as u16, (j - 1) as u16) != (row, col));
                    }
                }
            }
            assert(padded_matrix_of(self.matrix@, t, w, h));
        }
        match self.position(row, col) {
            Some(i) => {
                self.alive.remove(i);
                proof {
                    let after = self.alive@;
                    assert forall|a: int, b: int|
                        0 <= a < after.len() && 0 <= b < after.len() && a != b implies after[a]
                        != after[b] by {
                        let a0 = if a < i { a } else { a + 1 };
                        let b0 = if b < i { b } else { b + 1 };
                        assert(after[a] == before[a0]);
                        assert(after[b] == before[b0]);
                    }
                    assert forall|p: (u16, u16)| #[trigger]
                        after.contains(p) <==> before.to_set().remove((row, col)).contains(p) by {
                        if after.contains(p) {
                            let a = choose|a: int| 0 <= a < after.len() && after[a] == p;
                            let a0 = if a < i { a } else { a + 1 };
                            assert(before[a0] == p);
                            assert(a0 != i);
                        }
                        if before.contains(p) && p != (row, col) {
                            let a0 = choose|a0: int| 0 <= a0 < before.len() && before[a0] == p;
                            assert(a0 != i);
                            let a = if a0 < i { a0 } else { a0 - 1 };
                            assert(after[a] == p);
                        }
                    }
                    assert(self.alive@.to_set() =~= before.to_set().remove((row, col)));
                }
            },
            None => {
                self.alive.push((row, col));
                proof {
                    let after = self.alive@;
                    assert(after == before.push((row, col)));
                    assert forall|p: (u16, u16)| #[trigger]
                        after.contains(p) <==> before.to_set().insert((row, col)).contains(p) by {
                        if after.contains(p) {
                            let a = choose|a: int| 0 <= a < after.len() && after[a] == p;
                            if a < before.len() {
                                assert(before[a] == p);
                            }
                        }
                        if before.contains(p) {
                            let a0 = choose|a0: int| 0 <= a0 < before.len() && before[a0] == p;
                            assert(after[a0] == p);
                        }
                        if p == (row, col) {
                            assert(after[before.len() as int] == p);
                        }
                    }
                    assert(self.alive@.to_set() =~= before.to_set().insert((row, col)));
                }
            },
        }
    }

    /// Removes every live cell.
    pub fn clear(&mut self)
        ensures
            final(self).wf(),
            final(self).width == old(self).width,
            final(self).height == old(self).height,
            final(self).cells() == Set::<(u16, u16)>::empty(),
    {
        self.alive = Vec::new();
        self.matrix = self.get_alives_as_matrix_with_puffer();
        assert(self.alive@.to_set() =~= Set::<(u16, u16)>::empty());
    }

    /// Removes every live cell that lies outside the grid, and no other.
    pub fn prune(&mut self)
        requires
            old(self).wf(),
        ensures
            final(self).wf(),
            final(self).width == old(self).width,
            final(self).height == old(self).height,
            final(self).cells() == within(
                old(self).cells(),
                old(self).width as int,
                old(self).height as int,
            ),
    {
        let ghost src = self.alive@;
        let w = self.width;
        let h = self.height;
        let mut kept: Vec<(u16, u16)> = Vec::new();
        let mut i: usize = 0;
        while i < self.alive.len()
            invariant
                self.alive@ == src,
                src.no_duplicates(),
                i <= src.len(),
                w == self.width,
                h == self.height,
                kept@.no_duplicates(),
                forall|p: (u16, u16)| #[trigger]
                    kept@.contains(p) <==> ((exists|j: int| 0 <= j < i && src[j] == p) && in_grid(
                        w as int,
                        h as int,
                        p.0 as int,
                        p.1 as int,
                    )),
            decreases src.len() - i,
        {
            let p = self.alive[i];
            if p.0 < h && p.1 < w {
                proof {
                    if kept@.contains(p) {
                        let j = choose|j: int| 0 <= j < i && src[j] == p;
                        assert(src[j] == src[i as int]);
                    }
                }
                let ghost prev = kept@;
                kept.push(p);
                proof {
                    assert forall|q: (u16, u16)| #[trigger] kept@.contains(q) <==> ((exists|j: int|
                        0 <= j < i + 1 && src[j] == q) && in_grid(w as int, h as int, q.0 as int, q.1 as int)) by {
                        if kept@.contains(q) {
                            let k = choose|k: int| 0 <= k < kept@.len() && kept@[k] == q;
                            if k < kept@.len() - 1 {
                                assert(prev[k] == q);
                                assert(prev.contains(q));
                            } else {
                                assert(src[i as int] == q);
                            }
                        }
                        if (exists|j: int| 0 <= j < i + 1 && src[j] == q) && in_grid(w as int, h as int, q.0 as int, q.1 as int) {
                            let j = choose|j: int| 0 <= j < i + 1 && src[j] == q;
                            if j < i {
                                assert(src[j] == q);
                                assert(prev.contains(q));
                                let k = choose|k: int| 0 <= k < prev.len() && prev[k] == q;
                                assert(kept@[k] == q);
                            } else {
                                assert(kept@[kept@.len() - 1] == q);
                            }
                        }
                    }
                }
            } else {
                proof {
                    assert forall|q: (u16, u16)| #[trigger] kept@.contains(q) <==> ((exists|j: int|
                        0 <= j < i + 1 && src[j] == q) && in_grid(w as int, h as int, q.0 as int, q.1 as int)) by {
                        if (exists|j: int| 0 <= j < i + 1 && src[j] == q) && in_grid(w as int, h as int, q.0 as int, q.1 as int) {
                            let j = choose|j: int| 0 <= j < i + 1 && src[j] == q;
                            assert(j < i);
                        }
                    }
                }
            }
            i = i + 1;
        }
        proof {
            assert forall|p: (u16, u16)| #[trigger] kept@.to_set().contains(p) <==> within(src.to_set(), w as int, h as int).contains(p) by {
                if src.contains(p) {
                    let j = choose|j: int| 0 <= j < src.len() && src[j] == p;
                }
            }
            assert(kept@.to_set() =~= within(src.to_set(), w as int, h as int));
        }
        self.alive = kept;
        proof {
            assert forall|i: int, j: int|
                0 <= i < h + 2 && 0 <= j < w + 2 implies #[trigger] live_at(self.cells(), w as int, h as int, i - 1, j - 1)
                    == live_at(src.to_set(), w as int, h as int, i - 1, j - 1) by {
            }
        }
    }
    /// The live cells as a matrix with a dead border: `height + 2` rows of `width + 2`
    /// entries, `1` at `[row + 1][col + 1]` for each live cell inside the grid, `0` elsewhere.
    fn get_alives_as_matrix_with_puffer(&self) -> (m: Vec<Vec<u32>>)
        ensures
            padded_matrix_of(m@, self.cells(), self.width as int, self.height as int),
    {
        let w: usize = self.width as usize + 2;
        let h: usize = self.height as usize + 2;
        let mut m: Vec<Vec<u32>> = Vec::new();
        let mut i: usize = 0;
        while i < h
            invariant
                i <= h,
                m@.len() == i,
                forall|a: int| 0 <= a < i ==> #[trigger] m@[a]@.len() == w,
                forall|a: int, b: int| 0 <= a < i && 0 <= b < w ==> #[trigger] m@[a]@[b] == 0,
            decreases h - i,
        {
            let mut line: Vec<u32> = Vec::new();
            let mut j: usize = 0;
            while j < w
                invariant
                    j <= w,
                    line@.len() == j,
                    forall|b: int| 0 <= b < j ==> #[trigger] line@[b] == 0,
                decreases w - j,
            {
                line.push(0);
                j = j + 1;
            }
            m.push(line);
            i = i + 1;
        }
        let ghost cells = self.cells();
        let ghost src = self.alive@;
        let mut k: usize = 0;
        while k < self.alive.len()
            invariant
                k <= src.len(),
                src == self.alive@,
                h == self.height as int + 2,
                w == self.width as int + 2,
                m@.len() == h,
                forall|a: int| 0 <= a < h ==> #[trigger] m@[a]@.len() == w,
                forall|a: int, b: int|
                    0 <= a < h && 0 <= b < w ==> (#[trigger] m@[a]@[b] == 1 <==> (in_grid(
                        self.width as int,
                        self.height as int,
                        a - 1,
                        b - 1,
                    ) && exists|t: int| 0 <= t < k && src[t] == ((a - 1) as u16, (b - 1) as u16)))
                        && (m@[a]@[b] == 0 || m@[a]@[b] == 1),
            decreases src.len() - k,
        {
            let (r, c) = self.alive[k];
            if r < self.height && c < self.width {
                let ghost prev = m@;
                assert(m@[r as int + 1]@.len() == w);
                m[r as usize + 1][c as usize + 1] = 1;
                proof {
                    assert forall|a: int, b: int|
                        0 <= a < h && 0 <= b < w implies (#[trigger] m@[a]@[b] == 1 <==> (in_grid(
                            self.width as int,
                            self.height as int,
                            a - 1,
                            b - 1,
                        ) && exists|t: int| 0 <= t < k + 1 && src[t] == ((a - 1) as u16, (b - 1) as u16)))
                            && (m@[a]@[b] == 0 || m@[a]@[b] == 1) by {
                        if a == r + 1 && b == c + 1 {
                            assert(src[k as int] == ((a - 1) as u16, (b - 1) as u16));
                        } else {
                            assert(m@[a]@[b] == prev[a]@[b]);
                            if exists|t: int| 0 <= t < k + 1 && src[t] == ((a - 1) as u16, (b - 1) as u16) {
                                let t = choose|t: int| 0 <= t < k + 1 && src[t] == ((a - 1) as u16, (b - 1) as u16);
                                if in_grid(self.width as int, self.height as int, a - 1, b - 1) {
                                    assert(t != k);
                                }
                            }
                        }
                    }
                }
            } else {
                proof {
                    assert forall|a: int, b: int|
                        0 <= a < h && 0 <= b < w implies (#[trigger] m@[a]@[b] == 1 <==> (in_grid(
                            self.width as int,
                            self.height as int,
                            a - 1,
                            b - 1,
                        ) && exists|t: int| 0 <= t < k + 1 && src[t] == ((a - 1) as u16, (b - 1) as u16)))
                            && (m@[a]@[b] == 0 || m@[a]@[b] == 1) by {
                        if exists|t: int| 0 <= t < k + 1 && src[t] == ((a - 1) as u16, (b - 1) as u16) {
                            let t = choose|t: int| 0 <= t < k + 1 && src[t] == ((a - 1) as u16, (b - 1) as u16);
                            if in_grid(self.width as int, self.height as int, a - 1, b - 1) {
                                assert(t != k);
                            }
                        }
                    }
                }
            }
            k = k + 1;
        }
        m
    }
    /// Number of live neighbours of the matrix entry `[row][col]`, which stands for the
    /// cell `(row - 1, col - 1)`.
    fn get_num_neighbours(&self, m: &Vec<Vec<u32>>, row: usize, col: usize) -> (n: u16)
        requires
            padded_matrix_of(m@, self.cells(), self.width as int, self.height as int),
            1 <= row <= self.height,
            1 <= col <= self.width,
        ensures
            n == neighbours(self.cells(), self.width as int, self.height as int, row - 1, col - 1),
            n <= 8,
    {
        let ghost cells = self.cells();
        let ghost w = self.width as int;
        let ghost h = self.height as int;
        assert(m@[row - 1]@.len() == w + 2);
        assert(m@[row as int]@.len() == w + 2);
        assert(m@[row + 1]@.len() == w + 2);
        let above = &m[row - 1];
        let here = &m[row];
        let below = &m[row + 1];
        let mut num_neighbours: u16 = 0;
        if above[col - 1] == 1 {
            num_neighbours += 1;
        }
        if above[col] == 1 {
            num_neighbours += 1;
        }
        if above[col + 1] == 1 {
            num_neighbours += 1;
        }
        if here[col - 1] == 1 {
            num_neighbours += 1;
        }
        if here[col + 1] == 1 {
            num_neighbours += 1;
        }
        if below[col - 1] == 1 {
            num_neighbours += 1;
        }
        if below[col] == 1 {
            num_neighbours += 1;
        }
        if below[col + 1] == 1 {
            num_neighbours += 1;
        }
        proof {
            let r = row - 1;
            let c = col - 1;
            assert(m@[r]@[c] == 1 <==> live_at(cells, w, h, r - 1, c - 1));
            assert(m@[r]@[c + 1] == 1 <==> live_at(cells, w, h, r - 1, c));
            assert(m@[r]@[c + 2] == 1 <==> live_at(cells, w, h, r - 1, c + 1));
            assert(m@[r + 1]@[c] == 1 <==> live_at(cells, w, h, r, c - 1));
            assert(m@[r + 1]@[c + 2] == 1 <==> live_at(cells, w, h, r, c + 1));
            assert(m@[r + 2]@[c] == 1 <==> live_at(cells, w, h, r + 1, c - 1));
            assert(m@[r + 2]@[c + 1] == 1 <==> live_at(cells, w, h, r + 1, c));
            assert(m@[r + 2]@[c + 2] == 1 <==> live_at(cells, w, h, r + 1, c + 1));
        }
        num_neighbours
    }

    /// Advances the world by one generation under Conway's rule, all cells at once,
    /// counting neighbours against the generation before the step. Only cells inside the
    /// grid take part: the result lists exactly the live cells of the next generation.
    pub fn next_day(&mut self)
        requires
            old(self).wf(),
        ensures
            final(self).wf(),
            final(self).width == old(self).width,
            final(self).height == old(self).height,
            final(self).cells() == next_generation(
                old(self).cells(),
                old(self).width as int,
                old(self).height as int,
            ),
    {
        let m = &self.matrix;
        let ghost cells = self.cells();
        let ghost w = self.width as int;
        let ghost h = self.height as int;
        let mut next: Vec<(u16, u16)> = Vec::new();
        let mut row: u16 = 0;
        while row < self.height
            invariant
                w == self.width,
                h == self.height,
                cells == self.cells(),
                padded_matrix_of(m@, cells, w, h),
                row <= h,
                next@.no_duplicates(),
                forall|k: int| 0 <= k < next@.len() ==> precedes(#[trigger] next@[k], row as int, 0),
                forall|p: (u16, u16)| #[trigger]
                    next@.contains(p) <==> (precedes(p, row as int, 0) && next_live(
                        cells,
                        w,
                        h,
                        p.0 as int,
                        p.1 as int,
                    )),
            decreases h - row,
        {
            let mut col: u16 = 0;
            while col < self.width
                invariant
                    w == self.width,
                    h == self.height,
                    cells == self.cells(),
                    padded_matrix_of(m@, cells, w, h),
                    row < h,
                    col <= w,
                    next@.no_duplicates(),
                    forall|k: int| 0 <= k < next@.len() ==> precedes(#[trigger] next@[k], row as int, col as int),
                    forall|p: (u16, u16)| #[trigger]
                        next@.contains(p) <==> (precedes(p, row as int, col as int) && next_live(
                            cells,
                            w,
                            h,
                            p.0 as int,
                            p.1 as int,
                        )),
                decreases w - col,
            {
                let n = self.get_num_neighbours(&m, row as usize + 1, col as usize + 1);
                assert(m@[row + 1]@.len() == w + 2);
                let alive = m[row as usize + 1][col as usize + 1] == 1;
                let ghost prev = next@;
                assert(alive == live_at(cells, w, h, row as int, col as int));
                if (alive && (n == 2 || n == 3)) || (!alive && n == 3) {
                    proof {
                        if prev.contains((row, col)) {
                            let k = choose|k: int| 0 <= k < prev.len() && prev[k] == (row, col);
                            assert(precedes(prev[k], row as int, col as int));
                        }
                    }
                    next.push((row, col));
                    proof {
                        assert(next_live(cells, w, h, row as int, col as int));
                        assert forall|k: int| 0 <= k < next@.len() implies precedes(
                            #[trigger] next@[k],
                            row as int,
                            col + 1,
                        ) by {
                            if k < prev.len() {
                                assert(next@[k] == prev[k]);
                            }
                        }
                        assert forall|p: (u16, u16)| #[trigger]
                            next@.contains(p) <==> (precedes(p, row as int, col + 1) && next_live(
                                cells,
                                w,
                                h,
                                p.0 as int,
                                p.1 as int,
                            )) by {
                            if next@.contains(p) {
                                let k = choose|k: int| 0 <= k < next@.len() && next@[k] == p;
                                if k < prev.len() {
                                    assert(prev[k] == p);
                                    assert(prev.contains(p));
                                } else {
                                    assert(p == (row, col));
                                }
                            }
                            if precedes(p, row as int, col as int) && next_live(cells, w, h, p.0 as int, p.1 as int) {
                                assert(prev.contains(p));
                                let k = choose|k: int| 0 <= k < prev.len() && prev[k] == p;
                                assert(next@[k] == p);
                            }
                            if precedes(p, row as int, col + 1) && !precedes(p, row as int, col as int) {
                                assert(p == (row, col));
                                assert(next@[prev.len() as int] == p);
                            }
                        }
                    }
                } else {
                    proof {
                        assert(!next_live(cells, w, h, row as int, col as int));
                        assert forall|p: (u16, u16)| #[trigger]
                            next@.contains(p) <==> (precedes(p, row as int, col + 1) && next_live(
                                cells,
                                w,
                                h,
                                p.0 as int,
                                p.1 as int,
                            )) by {
                            if precedes(p, row as int, col + 1) && !precedes(p, row as int, col as int) {
                                assert(p == (row, col));
                            }
                        }
                    }
                }
                col = col + 1;
            }
            proof {
                assert forall|p: (u16, u16)| #[trigger]
                    next@.contains(p) <==> (precedes(p, row + 1, 0) && next_live(
                        cells,
                        w,
                        h,
                        p.0 as int,
                        p.1 as int,
                    )) by {
                    if next@.contains(p) {
                        let k = choose|k: int| 0 <= k < next@.len() && next@[k] == p;
                        assert(precedes(next@[k], row as int, w));
                    }
                }
                assert forall|k: int| 0 <= k < next@.len() implies precedes(#[trigger] next@[k], row + 1, 0) by {
                    assert(precedes(next@[k], row as int, w));
                    assert(next@.contains(next@[k]));
                }
            }
            row = row + 1;
        }
        proof {
            assert forall|p: (u16, u16)| #[trigger] next@.to_set().contains(p) <==> next_generation(cells, w, h).contains(p) by {
                if next_live(cells, w, h, p.0 as int, p.1 as int) {
                    assert(precedes(p, h, 0));
                }
            }
            assert(next@.to_set() =~= next_generation(cells, w, h));
        }
        self.alive = next;
        self.matrix = self.get_alives_as_matrix_with_puffer();
    }
    /// Whether the cell at offset `(dr, dc)` of the pulsar's box is live.
    fn is_pulsar_offset(dr: u16, dc: u16) -> (r: bool)
        ensures
            r == pulsar_offset(dr as int, dc as int),
    {
        let line_r = dr == 0 || dr == 5 || dr == 7 || dr == 12;
        let line_c = dc == 0 || dc == 5 || dc == 7 || dc == 12;
        let arm_r = (2 <= dr && dr <= 4) || (8 <= dr && dr <= 10);
        let arm_c = (2 <= dc && dc <= 4) || (8 <= dc && dc <= 10);
        (line_r && arm_c) || (arm_r && line_c)
    }

    /// A world of the given size holding the pulsar, less any of its cells that fall
    /// outside the grid.
    pub fn pulsar(width: u16, height: u16) -> (r: Self)
        ensures
            r.wf(),
            r.width == width,
            r.height == height,
            r.cells() == within(pulsar(), width as int, height as int),
    {
        let mut world = World::new(width, height);
        proof {
            assert(world.cells() =~= Set::<(u16, u16)>::empty());
        }
        let mut dr: u16 = 0;
        while dr < 13
            invariant
                dr <= 13,
                world.wf(),
                world.width == width,
                world.height == height,
                forall|p: (u16, u16)| #[trigger]
                    world.cells().contains(p) <==> (pulsar().contains(p) && in_grid(
                        width as int,
                        height as int,
                        p.0 as int,
                        p.1 as int,
                    ) && p.0 - PULSAR_TOP < dr),
            decreases 13 - dr,
        {
            let mut dc: u16 = 0;
            while dc < 13
                invariant
                    dr < 13,
                    dc <= 13,
                    world.wf(),
                    world.width == width,
                    world.height == height,
                    forall|p: (u16, u16)| #[trigger]
                        world.cells().contains(p) <==> (pulsar().contains(p) && in_grid(
                            width as int,
                            height as int,
                            p.0 as int,
                            p.1 as int,
                        ) && (p.0 - PULSAR_TOP < dr || (p.0 - PULSAR_TOP == dr && p.1 - PULSAR_LEFT < dc))),
                decreases 13 - dc,
            {
                if World::is_pulsar_offset(dr, dc) {
                    let ghost prev = world.cells();
                    world.toggle(dr + PULSAR_TOP, dc + PULSAR_LEFT);
                    proof {
                        let q = ((dr + PULSAR_TOP) as u16, (dc + PULSAR_LEFT) as u16);
                        assert(!prev.contains(q));
                        assert forall|p: (u16, u16)| #[trigger]
                            world.cells().contains(p) <==> (pulsar().contains(p) && in_grid(
                                width as int,
                                height as int,
                                p.0 as int,
                                p.1 as int,
                            ) && (p.0 - PULSAR_TOP < dr || (p.0 - PULSAR_TOP == dr && p.1 - PULSAR_LEFT < dc + 1))) by {
                            if p.0 - PULSAR_TOP == dr && p.1 - PULSAR_LEFT == dc {
                                assert(p == q);
                            }
                        }
                    }
                } else {
                    proof {
                        assert forall|p: (u16, u16)| #[trigger]
                            world.cells().contains(p) <==> (pulsar().contains(p) && in_grid(
                                width as int,
                                height as int,
                                p.0 as int,
                                p.1 as int,
                            ) && (p.0 - PULSAR_TOP < dr || (p.0 - PULSAR_TOP == dr && p.1 - PULSAR_LEFT < dc + 1))) by {
                        }
                    }
                }
                dc = dc + 1;
            }
            dr = dr + 1;
        }
        proof {
            assert forall|p: (u16, u16)| #[trigger]
                world.cells().contains(p) <==> within(pulsar(), width as int, height as int).contains(p) by {
                if pulsar().contains(p) {
                    assert(p.0 - PULSAR_TOP < 13);
                }
            }
            assert(world.cells() =~= within(pulsar(), width as int, height as int));
        }
        world
    }
    /// The live cells as text, each as `row,col` in the order listed, separated by `:`.
    pub fn alive_to_string(&self) -> (r: String)
        ensures
            r@ == pattern_text(self.alive@),
    {
        let chars = pattern_chars(&self.alive);
        string_from_chars(&chars)
    }
    /// The states of the cells in the top-left `height × width` corner, row by row:
    /// entry `[row][col]` is whether `(row, col)` is live.
    pub fn cell_rows(&self, height: u16, width: u16) -> (r: Vec<Vec<bool>>)
        requires
            self.wf(),
        ensures
            r@.len() == height,
            forall|i: int| 0 <= i < height ==> #[trigger] r@[i]@.len() == width,
            forall|i: int, j: int|
                0 <= i < height && 0 <= j < width ==> #[trigger] r@[i]@[j] == self.cells().contains(
                    (i as u16, j as u16),
                ),
    {
        let mut rows: Vec<Vec<bool>> = Vec::new();
        let mut row: u16 = 0;
        while row < height
            invariant
                self.wf(),
                row <= height,
                rows@.len() == row,
                forall|i: int| 0 <= i < row ==> #[trigger] rows@[i]@.len() == width,
                forall|i: int, j: int|
                    0 <= i < row && 0 <= j < width ==> #[trigger] rows@[i]@[j] == self.cells().contains(
                        (i as u16, j as u16),
                    ),
            decreases height - row,
        {
            let mut line: Vec<bool> = Vec::new();
            let mut col: u16 = 0;
            while col < width
                invariant
                    self.wf(),
                    row < height,
                    col <= width,
                    line@.len() == col,
                    forall|j: int| 0 <= j < col ==> #[trigger] line@[j] == self.cells().contains(
                        (row, j as u16),
                    ),
                decreases width - col,
            {
                line.push(self.is_alive(row, col));
                col = col + 1;
            }
            rows.push(line);
            row = row + 1;
        }
        rows
    }
    /// A world of the given size whose live cells are those of `cells` inside the grid;
    /// a cell listed twice counts once.
    pub fn with_cells(width: u16, height: u16, cells: &Vec<(u16, u16)>) -> (r: Self)
        ensures
            r.wf(),
            r.width == width,
            r.height == height,
            r.cells() == within(cells@.to_set(), width as int, height as int),
    {
        let mut world = World::new(width, height);
        proof {
            assert(world.cells() =~= Set::<(u16, u16)>::empty());
        }
        let mut i: usize = 0;
        while i < cells.len()
            invariant
                i <= cells@.len(),
                world.wf(),
                world.width == width,
                world.height == height,
                forall|p: (u16, u16)| #[trigger]
                    world.cells().contains(p) <==> ((exists|j: int| 0 <= j < i && cells@[j] == p) && in_grid(
                        width as int,
                        height as int,
                        p.0 as int,
                        p.1 as int,
                    )),
            decreases cells@.len() - i,
        {
            let (row, col) = cells[i];
            if !world.is_alive(row, col) {
                world.toggle(row, col);
            }
            proof {
                assert forall|p: (u16, u16)| #[trigger]
                    world.cells().contains(p) <==> ((exists|j: int| 0 <= j < i + 1 && cells@[j] == p) && in_grid(
                        width as int,
                        height as int,
                        p.0 as int,
                        p.1 as int,
                    )) by {
                    if p == (row, col) {
                        assert(cells@[i as int] == p);
                    } else if exists|j: int| 0 <= j < i + 1 && cells@[j] == p {
                        let j = choose|j: int| 0 <= j < i + 1 && cells@[j] == p;
                        assert(j < i);
                    }
                }
            }
            i = i + 1;
        }
        proof {
            assert forall|p: (u16, u16)| #[trigger]
                world.cells().contains(p) <==> within(cells@.to_set(), width as int, height as int).contains(p) by {
                if cells@.contains(p) {
                    let j = choose|j: int| 0 <= j < cells@.len() && cells@[j] == p;
                }
            }
            assert(world.cells() =~= within(cells@.to_set(), width as int, height as int));
        }
        world
    }
}

} // verus!
