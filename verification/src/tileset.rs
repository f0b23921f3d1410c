//! Tileset geometry: slicing a tile atlas image into fixed-size tiles
//! and flattening pixel grids into raw byte buffers. The GPU upload and
//! the image decoding themselves are external collaborators; this module
//! owns the arithmetic they are fed with.

use vstd::prelude::*;

use crate::{ErrorKind, FeError};

verus! {

/// The edge length of one tile in the atlas, in pixels.
pub const TILE_SIZE: u32 = 16;

/// The top-left corners of the tiles of an atlas image, row-major: one
/// per tile, left to right, top to bottom. An image whose width or
/// height is not a multiple of the tile size is a validation error.
pub fn tile_origins(width: u32, height: u32) -> (r: Result<Vec<(u32, u32)>, FeError>)
    requires
        (width as int / TILE_SIZE as int) * (height as int / TILE_SIZE as int) <= usize::MAX,
    ensures
        match r {
            Result::Ok(v) => {
                &&& width % TILE_SIZE == 0
                &&& height % TILE_SIZE == 0
                &&& v@.len() == (width as int / TILE_SIZE as int) * (height as int
                    / TILE_SIZE as int)
                &&& forall|k: int|
                    0 <= k < v@.len() ==> (#[trigger] v@[k]).0 == TILE_SIZE * (k % (width as int
                        / TILE_SIZE as int)) && v@[k].1 == TILE_SIZE * (k / (width as int
                        / TILE_SIZE as int))
            },
            Result::Err(e) => (width % TILE_SIZE != 0 || height % TILE_SIZE != 0) && e.kind
                == ErrorKind::Validation,
        },
{
    if width % TILE_SIZE != 0 || height % TILE_SIZE != 0 {
        return Result::Err(
            FeError {
                kind: ErrorKind::Validation,
                msg: "Image width or height is not a multiple of the tile size.".to_owned(),
            },
        );
    }
    let cols = (width / TILE_SIZE) as usize;
    let rows = (height / TILE_SIZE) as usize;
    if cols == 0 || rows == 0 {
        let v: Vec<(u32, u32)> = Vec::new();
        proof {
            assert(cols as int * rows as int == 0) by (nonlinear_arith)
                requires
                    cols == 0 || rows == 0,
            ;
        }
        return Result::Ok(v);
    }
    proof {
        assert(cols as int * rows as int <= usize::MAX);
    }
    let total = cols * rows;
    let mut v: Vec<(u32, u32)> = Vec::new();
    let mut k: usize = 0;
    while k < total
        invariant
            k <= total,
            1 <= cols,
            1 <= rows,
            cols == width as int / TILE_SIZE as int,
            rows == height as int / TILE_SIZE as int,
            width % TILE_SIZE == 0,
            height % TILE_SIZE == 0,
            total == cols * rows,
            v@.len() == k,
            forall|t: int|
                0 <= t < k ==> (#[trigger] v@[t]).0 == TILE_SIZE * (t % (cols as int)) && v@[t].1
                    == TILE_SIZE * (t / (cols as int)),
        decreases total - k,
    {
        let col = k % cols;
        let row = k / cols;
        proof {
            assert(col < cols && row < rows) by (nonlinear_arith)
                requires
                    1 <= cols,
                    1 <= rows,
                    k < cols * rows,
                    col == k as int % cols as int,
                    row == k as int / cols as int,
            ;
            assert(TILE_SIZE * (col as int) < TILE_SIZE * (cols as int)) by (nonlinear_arith)
                requires
                    col < cols,
            ;
            assert(TILE_SIZE * (row as int) < TILE_SIZE * (rows as int)) by (nonlinear_arith)
                requires
                    row < rows,
            ;
            assert(TILE_SIZE * (cols as int) <= width) by (nonlinear_arith)
                requires
                    cols == width as int / TILE_SIZE as int,
                    width % TILE_SIZE == 0,
                    width as int == TILE_SIZE as int * (width as int / TILE_SIZE as int) + (
                    width as int % TILE_SIZE as int),
            ;
            assert(TILE_SIZE * (rows as int) <= height) by (nonlinear_arith)
                requires
                    rows == height as int / TILE_SIZE as int,
                    height % TILE_SIZE == 0,
                    height as int == TILE_SIZE as int * (height as int / TILE_SIZE as int) + (
                    height as int % TILE_SIZE as int),
            ;
            vstd::arithmetic::div_mod::lemma_fundamental_div_mod(
                width as int,
                TILE_SIZE as int,
            );
            vstd::arithmetic::div_mod::lemma_fundamental_div_mod(
                height as int,
                TILE_SIZE as int,
            );
        }
        v.push((TILE_SIZE * (col as u32), TILE_SIZE * (row as u32)));
        k = k + 1;
    }
    Result::Ok(v)
}

/// Flattens a pixel grid into the raw byte order a texture upload takes:
/// four bytes per pixel, in pixel order.
pub fn flatten_rgba(pixels: &Vec<(u8, u8, u8, u8)>) -> (r: Vec<u8>)
    requires
        pixels@.len() * 4 <= usize::MAX,
    ensures
        r@.len() == 4 * pixels@.len(),
        forall|i: int|
            0 <= i < pixels@.len() ==> r@[4 * i] == (#[trigger] pixels@[i]).0 && r@[4 * i + 1]
                == pixels@[i].1 && r@[4 * i + 2] == pixels@[i].2 && r@[4 * i + 3] == pixels@[i].3,
{
    let mut r: Vec<u8> = Vec::new();
    let mut i: usize = 0;
    while i < pixels.len()
        invariant
            i <= pixels@.len(),
            pixels@.len() * 4 <= usize::MAX,
            r@.len() == 4 * i,
            forall|t: int|
                0 <= t < i ==> r@[4 * t] == (#[trigger] pixels@[t]).0 && r@[4 * t + 1]
                    == pixels@[t].1 && r@[4 * t + 2] == pixels@[t].2 && r@[4 * t + 3]
                    == pixels@[t].3,
        decreases pixels@.len() - i,
    {
        let p = pixels[i];
        r.push(p.0);
        r.push(p.1);
        r.push(p.2);
        r.push(p.3);
        i = i + 1;
    }
    r
}

} // verus!
