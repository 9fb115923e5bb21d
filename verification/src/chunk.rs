use crate::types::Vector2;
use vstd::prelude::*;

verus! {

/// One cell of the grid: a category, or nothing where no rule accepted the cell.
pub type Tile<T> = Option<T>;

/// A grid of `W` by `H` tiles, stored row by row: the tile at column `x` of row
/// `y` stands at index `y * W + x`. A chunk never changes once it is built.
pub struct ChunkGeneration<T, const W: usize, const H: usize> {
    generation: Vec<Tile<T>>,
}

impl<T, const W: usize, const H: usize> ChunkGeneration<T, W, H> {
    #[verifier::type_invariant]
    spec fn full(&self) -> bool {
        self.generation@.len() == W * H
    }

    /// The tiles in storage order.
    pub closed spec fn view(&self) -> Seq<Tile<T>> {
        self.generation@
    }

    /// The column and row of the tile at `index`.
    pub open spec fn local_position(index: int) -> Vector2<usize> {
        Vector2 { x: (index % W as int) as usize, y: (index / W as int) as usize }
    }

    /// Wraps `W * H` tiles given row by row.
    pub fn new(generation: Vec<Tile<T>>) -> (chunk: Self)
        requires
            generation@.len() == W * H,
        ensures
            chunk@ == generation@,
    {
        Self { generation }
    }

    /// Every tile with its column and row, in storage order.
    pub fn iter(&self) -> (tiles: Vec<(Vector2<usize>, &Tile<T>)>)
        ensures
            tiles@.len() == W * H,
            tiles@.len() == self@.len(),
            forall|i: int|
                0 <= i < tiles@.len() ==> (#[trigger] tiles@[i]).0 == Self::local_position(i)
                    && *tiles@[i].1 == self@[i],
    {
        proof {
            use_type_invariant(self);
        }
        let mut tiles: Vec<(Vector2<usize>, &Tile<T>)> = Vec::new();
        let mut index: usize = 0;
        while index < self.generation.len()
            invariant
                index <= self.generation@.len(),
                self.generation@.len() == W * H,
                tiles@.len() == index,
                forall|i: int|
                    0 <= i < index ==> (#[trigger] tiles@[i]).0 == Self::local_position(i)
                        && *tiles@[i].1 == self.generation@[i],
            decreases self.generation@.len() - index,
        {
            assert(W > 0) by (nonlinear_arith)
                requires
                    index < W * H,
            ;
            tiles.push((Vector2 { x: index % W, y: index / W }, &self.generation[index]));
            index += 1;
        }
        tiles
    }
}

} // verus!
