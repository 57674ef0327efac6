//! How many threads a kernel is launched with.
use cudarc::driver::LaunchConfig;
use vstd::prelude::*;

verus! {

/// The blocks of a launch, the threads of a block and the shared memory of each.
#[derive(Clone, Copy)]
pub struct LaunchDims {
    pub grid: (u32, u32, u32),
    pub block: (u32, u32, u32),
    pub shared_mem_bytes: u32,
}

/// Blocks of 1024 threads in a row, as many as cover `n`.
pub open spec fn dims_for(n: u32) -> LaunchDims {
    LaunchDims {
        grid: (((n + 1023) / 1024) as u32, 1, 1),
        block: (1024, 1, 1),
        shared_mem_bytes: 0,
    }
}

/// Calls `LaunchConfig::for_num_elems`. It is taken to give one row of blocks of 1024 threads, as
/// many blocks as `n` fills, the last one perhaps in part, and no shared memory.
#[verifier::external_body]
pub(crate) fn launch_for(n: u32) -> (r: LaunchDims)
    ensures
        r == dims_for(n),
{
    let c = LaunchConfig::for_num_elems(n);
    LaunchDims { grid: c.grid_dim, block: c.block_dim, shared_mem_bytes: c.shared_mem_bytes }
}

/// The launch for `n` elements, one thread each.
pub fn elementwise_launch(n: usize) -> (r: LaunchDims)
    ensures
        r == dims_for(n as u32),
{
    launch_for(n as u32)
}

/// Tiles of 16 by 16 threads.
pub open spec fn tiled(cols: u32, rows: u32, batch: u32) -> LaunchDims {
    LaunchDims {
        grid: (((cols + 15) / 16) as u32, ((rows + 15) / 16) as u32, batch),
        block: (16, 16, 1),
        shared_mem_bytes: 0,
    }
}

/// The tiles can be counted.
pub open spec fn tiles_fit(cols: usize, rows: usize) -> bool {
    cols as u32 + 15 <= u32::MAX && rows as u32 + 15 <= u32::MAX
}

/// The launch for `batch` results of `rows` by `cols` elements.
pub fn tiled_launch(cols: usize, rows: usize, batch: usize) -> (r: LaunchDims)
    requires
        tiles_fit(cols, rows),
    ensures
        r == tiled(cols as u32, rows as u32, batch as u32),
{
    LaunchDims {
        grid: ((cols as u32 + 15) / 16, (rows as u32 + 15) / 16, batch as u32),
        block: (16, 16, 1),
        shared_mem_bytes: 0,
    }
}

/// Whether the tiles can be counted.
pub fn tiles_can_be_counted(cols: usize, rows: usize) -> (r: bool)
    ensures
        r == tiles_fit(cols, rows),
{
    cols as u32 <= 0xFFFF_FFF0 && rows as u32 <= 0xFFFF_FFF0
}

/// The threads of a launch in the first and second direction.
pub open spec fn threads(d: LaunchDims) -> (int, int, int) {
    (d.grid.0 * d.block.0, d.grid.1 * d.block.1, d.grid.2 * d.block.2)
}

/// A launch for `n` elements has a thread for each, and less than one block too many.
pub proof fn elements_are_covered(n: usize)
    requires
        n <= u32::MAX,
    ensures
        n <= threads(dims_for(n as u32)).0 < n + 1024,
        threads(dims_for(n as u32)).1 == 1,
        threads(dims_for(n as u32)).2 == 1,
{
}

/// A tiled launch has a thread for every element of every result.
pub proof fn tiles_cover(cols: usize, rows: usize, batch: usize)
    requires
        cols <= u32::MAX - 15,
        rows <= u32::MAX - 15,
        batch <= u32::MAX,
    ensures
        cols <= threads(tiled(cols as u32, rows as u32, batch as u32)).0 < cols + 16,
        rows <= threads(tiled(cols as u32, rows as u32, batch as u32)).1 < rows + 16,
        threads(tiled(cols as u32, rows as u32, batch as u32)).2 == batch,
{
}

} // verus!
