use vstd::prelude::*;

verus! {

/// Which cells the player can currently see, indexed first by column and
/// then by row, as the field-of-view computation last left them.
pub struct Fov {
    pub visible: Vec<Vec<bool>>,
}

/// Whether (x, y) names a cell of the field of view.
pub open spec fn in_fov_bounds(fov: &Fov, x: int, y: int) -> bool {
    0 <= x < fov.visible@.len() && 0 <= y < fov.visible@[x]@.len()
}

/// Whether the cell (x, y) is in sight.
pub open spec fn sees(fov: &Fov, x: int, y: int) -> bool {
    fov.visible@[x]@[y]
}

/// Whether the field of view covers a `width` by `height` grid.
pub open spec fn fov_shape(fov: &Fov, width: int, height: int) -> bool {
    &&& fov.visible@.len() == width
    &&& forall|x: int| 0 <= x < width ==> #[trigger] fov.visible@[x]@.len() == height
}

impl Fov {
    /// Whether (x, y) names a cell of the field of view.
    pub fn covers(&self, x: i32, y: i32) -> (b: bool)
        ensures
            b == in_fov_bounds(self, x as int, y as int),
    {
        if x < 0 || y < 0 {
            return false;
        }
        let column = x as usize;
        if column >= self.visible.len() {
            return false;
        }
        (y as usize) < self.visible[column].len()
    }

    /// Whether the cell (x, y) is in sight; the cell must lie on the grid.
    pub fn is_in_fov(&self, x: i32, y: i32) -> (b: bool)
        requires
            in_fov_bounds(self, x as int, y as int),
        ensures
            b == sees(self, x as int, y as int),
    {
        self.visible[x as usize][y as usize]
    }
}

} // verus!
