//! Star-field cubemap: which direction each pixel of each face looks in, and
//! how the six faces are packed into one image.
//!
//! The colour of a pixel is the caller's business: it is whatever the
//! caller's `sample` function returns for the pixel's direction. This module
//! decides the directions, the order of the pixels and the layout of the
//! bytes.

use crate::geometry::{dot, extent, Lattice};
use crate::grid::{
    grid_index, grid_size, lemma_grid_index_bound, lemma_grid_index_injective,
    lemma_grid_index_onto, lemma_grid_index_steps, FACES,
};
use vstd::prelude::*;

verus! {

/// Seed of the noise that colours the sky.
pub const SEED: u32 = 8_564_132;

/// Spatial frequency of the noise: a unit direction is scaled by this before
/// the noise is sampled.
pub const SCALE: u32 = 10;

/// Bytes per pixel: red, green, blue and alpha.
pub const CHANNELS: usize = 4;

/// Alpha of every pixel: opaque.
pub const OPAQUE: u8 = 255;

/// A colour with eight bits per channel.
#[derive(Clone, Copy, Debug, PartialEq, Eq, Structural)]
pub struct Rgb {
    pub red: u8,
    pub green: u8,
    pub blue: u8,
}

/// One pixel of one face, before it has a colour.
#[derive(Clone, Copy, Debug, PartialEq, Eq, Structural)]
pub struct Texel {
    /// The face: 0 looks along +X, 1 along -X, 2 along -Y, 3 along +Y,
    /// 4 along -Z, 5 along +Z.
    pub face: u32,
    /// Column of the pixel on its face.
    pub x: u32,
    /// Row of the pixel on its face.
    pub y: u32,
    /// Direction in which the pixel looks, not of unit length.
    pub direction: Lattice,
}

/// Why no cubemap can be made.
#[derive(Clone, Copy, Debug, PartialEq, Eq, Structural)]
pub enum SkyboxError {
    /// A face must have at least one row and one column.
    EmptyFace,
}

/// Six faces stacked in one image, one above the other, in the order of
/// their numbers.
#[derive(Debug)]
pub struct CubemapImage {
    /// Width of the image and of each face, in pixels.
    pub width: u32,
    /// Height of each face, in pixels. The image is six times as high.
    pub face_height: u32,
    /// The pixels, row by row, four bytes each: red, green, blue, alpha.
    pub data: Vec<u8>,
}

/// The axis along which a face looks, as a signed unit vector.
pub open spec fn face_axis(face: int) -> (int, int, int) {
    if face == 0 {
        (1, 0, 0)
    } else if face == 1 {
        (-1, 0, 0)
    } else if face == 2 {
        (0, -1, 0)
    } else if face == 3 {
        (0, 1, 0)
    } else if face == 4 {
        (0, 0, -1)
    } else {
        (0, 0, 1)
    }
}

/// Turns coordinates on a face into a direction in space. On the face, `x`
/// runs along the columns, `y` along the rows and `z` points out of the cube.
/// A face that the cube does not have gives no direction.
pub open spec fn face_direction(face: int, x: int, y: int, z: int) -> (int, int, int) {
    if face == 0 {
        (z, y, x)
    } else if face == 1 {
        (-z, y, -x)
    } else if face == 2 {
        (x, -z, -y)
    } else if face == 3 {
        (x, z, y)
    } else if face == 4 {
        (x, y, -z)
    } else if face == 5 {
        (-x, y, z)
    } else {
        (0, 0, 0)
    }
}

/// The direction of the point of a face that lies `x / width` of the way
/// along the columns and `y / height` of the way along the rows. It is given
/// in units of `1 / (width * height)`, in which the face is `width * height`
/// away from the centre of the cube and `2 * width * height` wide.
pub open spec fn uv_direction(face: int, x: int, width: int, y: int, height: int) -> (
    int,
    int,
    int,
) {
    face_direction(face, height * (2 * x - width), width * (2 * y - height), width * height)
}

/// Products of bounded factors are bounded by the product of the bounds.
proof fn lemma_face_coordinates_fit(x: int, width: int, y: int, height: int)
    requires
        0 <= x <= width,
        0 <= y <= height,
    ensures
        -(width * height) <= height * (2 * x - width) <= width * height,
        -(width * height) <= width * (2 * y - height) <= width * height,
        0 <= width * height,
{
    assert(-(width * height) <= height * (2 * x - width) <= width * height && -(width * height)
        <= width * (2 * y - height) <= width * height && 0 <= width * height) by (nonlinear_arith)
        requires
            0 <= x <= width,
            0 <= y <= height,
    ;
}

/// Converts a place on a face of the cubemap into the direction in which it
/// looks. The place is `x / width` of the way along the columns and
/// `y / height` of the way along the rows. The direction is not of unit
/// length.
pub fn face_uv_to_direction(face: u32, x: u32, width: u32, y: u32, height: u32) -> (direction:
    Lattice)
    requires
        x <= width,
        y <= height,
        width * height <= i64::MAX,
    ensures
        direction@ == uv_direction(face as int, x as int, width as int, y as int, height as int),
{
    proof {
        lemma_face_coordinates_fit(x as int, width as int, y as int, height as int);
    }
    let across: i64 = (height as i64) * (2 * (x as i64) - (width as i64));
    let down: i64 = (width as i64) * (2 * (y as i64) - (height as i64));
    let out: i64 = (width as i64) * (height as i64);
    if face == 0 {
        Lattice { x: out, y: down, z: across }
    } else if face == 1 {
        Lattice { x: -out, y: down, z: -across }
    } else if face == 2 {
        Lattice { x: across, y: -out, z: -down }
    } else if face == 3 {
        Lattice { x: across, y: out, z: down }
    } else if face == 4 {
        Lattice { x: across, y: down, z: -out }
    } else if face == 5 {
        Lattice { x: -across, y: down, z: out }
    } else {
        Lattice { x: 0, y: 0, z: 0 }
    }
}

/// Every place on a face looks outwards through that face: its direction
/// goes `width * height` units along the face's axis and no further than that
/// along any axis. In particular it is not null, so it can be normalised.
pub proof fn lemma_direction_through_face(face: int, x: int, width: int, y: int, height: int)
    requires
        0 <= face < 6,
        0 <= x <= width,
        0 <= y <= height,
        width >= 1,
        height >= 1,
    ensures
        dot(uv_direction(face, x, width, y, height), face_axis(face)) == width * height,
        extent(uv_direction(face, x, width, y, height)) == width * height,
        uv_direction(face, x, width, y, height) != (0int, 0int, 0int),
{
    lemma_face_coordinates_fit(x, width, y, height);
    let d = uv_direction(face, x, width, y, height);
    assert(width * height >= 1) by (nonlinear_arith)
        requires
            width >= 1,
            height >= 1,
    ;
    assert(d.0 * 1 == d.0 && d.0 * 0 == 0 && d.0 * (-1) == -d.0);
    assert(d.1 * 1 == d.1 && d.1 * 0 == 0 && d.1 * (-1) == -d.1);
    assert(d.2 * 1 == d.2 && d.2 * 0 == 0 && d.2 * (-1) == -d.2);
}

/// The four side faces join into a ring: the last column of one is the first
/// column of the next, row for row, in the order +X, +Z, -X, -Z.
pub proof fn lemma_side_faces_join(y: int, width: int, height: int)
    ensures
        uv_direction(0, width, width, y, height) == uv_direction(5, 0, width, y, height),
        uv_direction(5, width, width, y, height) == uv_direction(1, 0, width, y, height),
        uv_direction(1, width, width, y, height) == uv_direction(4, 0, width, y, height),
        uv_direction(4, width, width, y, height) == uv_direction(0, 0, width, y, height),
{
    assert(height * (2 * width - width) == width * height && height * (2 * 0 - width) == -(width
        * height)) by (nonlinear_arith);
}

/// On a cubemap with square faces the top and the bottom face join the ring
/// of side faces along all four of their edges. `t` runs along the edge.
pub proof fn lemma_top_and_bottom_join(t: int, side: int)
    ensures
        uv_direction(3, t, side, 0, side) == uv_direction(4, t, side, side, side),
        uv_direction(3, t, side, side, side) == uv_direction(5, side - t, side, side, side),
        uv_direction(3, 0, side, t, side) == uv_direction(1, side - t, side, side, side),
        uv_direction(3, side, side, t, side) == uv_direction(0, t, side, side, side),
        uv_direction(2, t, side, 0, side) == uv_direction(5, side - t, side, 0, side),
        uv_direction(2, t, side, side, side) == uv_direction(4, t, side, 0, side),
        uv_direction(2, 0, side, t, side) == uv_direction(1, t, side, 0, side),
        uv_direction(2, side, side, t, side) == uv_direction(0, side - t, side, 0, side),
{
    assert(side * (2 * side - side) == side * side && side * (2 * 0 - side) == -(side * side)
        && side * (2 * (side - t) - side) == -(side * (2 * t - side))) by (nonlinear_arith);
}

/// The pixel in column `x` and row `y` of a face of a cubemap whose faces are
/// `width` pixels wide and `height` pixels high.
pub open spec fn texel(width: int, height: int, face: int, x: int, y: int) -> Texel {
    let direction = uv_direction(face, x, width, y, height);
    Texel {
        face: face as u32,
        x: x as u32,
        y: y as u32,
        direction: Lattice {
            x: direction.0 as i64,
            y: direction.1 as i64,
            z: direction.2 as i64,
        },
    }
}

/// Place of a pixel among the pixels of the image: the faces are stacked, so
/// the image has `6 * height` rows of `width` pixels.
pub open spec fn pixel_index(width: int, height: int, face: int, x: int, y: int) -> int {
    grid_index(height, width, face, y, x)
}

/// Whether the pixel in column `x` and row `y` of a face is stored with a
/// colour that `sample` gives for it, and opaque.
pub open spec fn pixel_sampled<F: Fn(Texel) -> Rgb>(
    data: Seq<u8>,
    width: int,
    height: int,
    face: int,
    x: int,
    y: int,
    sample: F,
) -> bool {
    let at = 4 * pixel_index(width, height, face, x, y);
    &&& call_ensures(
        sample,
        (texel(width, height, face, x, y),),
        Rgb { red: data[at], green: data[at + 1], blue: data[at + 2] },
    )
    &&& data[at + 3] == OPAQUE
}

/// Whether the bytes are the pixels of a cubemap with faces of the given
/// size, coloured by `sample`.
pub open spec fn is_skybox_data<F: Fn(Texel) -> Rgb>(
    data: Seq<u8>,
    width: int,
    height: int,
    sample: F,
) -> bool {
    &&& data.len() == 4 * grid_size(height, width)
    &&& forall|face: int, x: int, y: int|
        0 <= face < 6 && 0 <= x < width && 0 <= y < height ==> #[trigger] pixel_sampled(
            data,
            width,
            height,
            face,
            x,
            y,
            sample,
        )
}

/// Whether the image is a cubemap with faces of the given size, coloured by
/// `sample`.
pub open spec fn is_skybox<F: Fn(Texel) -> Rgb>(
    image: CubemapImage,
    width: int,
    height: int,
    sample: F,
) -> bool {
    &&& image.width == width
    &&& image.face_height == height
    &&& is_skybox_data(image.data@, width, height, sample)
}

/// Generates a skybox image.
///
/// The six faces are visited in the order of their numbers, each row by row,
/// and `sample` is asked once for the colour of each pixel. The pixels are
/// stored in the order in which they are visited, four bytes each: the three
/// channels of the colour and an opaque alpha.
///
/// A cubemap whose faces have no rows or no columns is refused.
pub fn generate_skybox<F: Fn(Texel) -> Rgb>(width: u32, height: u32, sample: F) -> (made: Result<
    CubemapImage,
    SkyboxError,
>)
    requires
        4 * grid_size(height as int, width as int) <= usize::MAX,
        forall|pixel: Texel| call_requires(sample, (pixel,)),
    ensures
        made is Err <==> (width == 0 || height == 0),
        match made {
            Ok(image) => is_skybox(image, width as int, height as int, sample),
            Err(error) => error == SkyboxError::EmptyFace,
        },
{
    if width == 0 || height == 0 {
        return Err(SkyboxError::EmptyFace);
    }
    let ghost w = width as int;
    let ghost h = height as int;
    proof {
        assert(w * h <= 6 * h * w) by (nonlinear_arith)
            requires
                w >= 1,
                h >= 1,
        ;
        lemma_grid_index_steps(h, w, 0, 0, 0);
    }
    let mut data: Vec<u8> = Vec::new();
    let mut face: u32 = 0;
    while face < FACES
        invariant
            face <= 6,
            w == width,
            h == height,
            w >= 1,
            h >= 1,
            w * h <= i64::MAX,
            forall|pixel: Texel| call_requires(sample, (pixel,)),
            data@.len() == 4 * pixel_index(w, h, face as int, 0, 0),
            forall|f: int, a: int, b: int|
                0 <= f < 6 && 0 <= a < w && 0 <= b < h && 4 * pixel_index(w, h, f, a, b)
                    < data@.len() ==> #[trigger] pixel_sampled(data@, w, h, f, a, b, sample),
        decreases 6 - face,
    {
        let mut y: u32 = 0;
        while y < height
            invariant
                face < 6,
                y <= height,
                w == width,
                h == height,
                w >= 1,
                h >= 1,
                w * h <= i64::MAX,
                forall|pixel: Texel| call_requires(sample, (pixel,)),
                data@.len() == 4 * pixel_index(w, h, face as int, 0, y as int),
                forall|f: int, a: int, b: int|
                    0 <= f < 6 && 0 <= a < w && 0 <= b < h && 4 * pixel_index(w, h, f, a, b)
                        < data@.len() ==> #[trigger] pixel_sampled(data@, w, h, f, a, b, sample),
            decreases height - y,
        {
            let mut x: u32 = 0;
            while x < width
                invariant
                    face < 6,
                    y < height,
                    x <= width,
                    w == width,
                    h == height,
                    w >= 1,
                    h >= 1,
                    w * h <= i64::MAX,
                    forall|pixel: Texel| call_requires(sample, (pixel,)),
                    data@.len() == 4 * pixel_index(w, h, face as int, x as int, y as int),
                    forall|f: int, a: int, b: int|
                        0 <= f < 6 && 0 <= a < w && 0 <= b < h && 4 * pixel_index(w, h, f, a, b)
                            < data@.len() ==> #[trigger] pixel_sampled(
                            data@,
                            w,
                            h,
                            f,
                            a,
                            b,
                            sample,
                        ),
                decreases width - x,
            {
                let direction = face_uv_to_direction(face, x, width, y, height);
                let pixel = Texel { face, x, y, direction };
                proof {
                    lemma_face_coordinates_fit(x as int, w, y as int, h);
                    assert(pixel == texel(w, h, face as int, x as int, y as int));
                }
                let colour = sample(pixel);
                let ghost before = data@;
                data.push(colour.red);
                data.push(colour.green);
                data.push(colour.blue);
                data.push(OPAQUE);
                proof {
                    lemma_grid_index_steps(h, w, face as int, y as int, x as int);
                    assert forall|f: int, a: int, b: int|
                        0 <= f < 6 && 0 <= a < w && 0 <= b < h && 4 * pixel_index(w, h, f, a, b)
                            < data@.len() implies #[trigger] pixel_sampled(
                        data@,
                        w,
                        h,
                        f,
                        a,
                        b,
                        sample,
                    ) by {
                        let at = 4 * pixel_index(w, h, f, a, b);
                        lemma_grid_index_bound(h, w, f, b, a);
                        if at < before.len() {
                            assert(pixel_sampled(before, w, h, f, a, b, sample));
                            assert(data@[at] == before[at]);
                            assert(data@[at + 1] == before[at + 1]);
                            assert(data@[at + 2] == before[at + 2]);
                            assert(data@[at + 3] == before[at + 3]);
                        } else {
                            lemma_grid_index_injective(
                                h,
                                w,
                                f,
                                b,
                                a,
                                face as int,
                                y as int,
                                x as int,
                            );
                        }
                    }
                }
                x = x + 1;
            }
            proof {
                lemma_grid_index_steps(h, w, face as int, y as int, 0);
            }
            y = y + 1;
        }
        proof {
            lemma_grid_index_steps(h, w, face as int, 0, 0);
        }
        face = face + 1;
    }
    proof {
        lemma_grid_index_steps(h, w, 0, 0, 0);
        assert forall|f: int, a: int, b: int| 0 <= f < 6 && 0 <= a < w && 0 <= b < h implies #[trigger] pixel_sampled(
            data@,
            w,
            h,
            f,
            a,
            b,
            sample,
        ) by {
            lemma_grid_index_bound(h, w, f, b, a);
        }
    }
    Ok(CubemapImage { width, face_height: height, data })
}

/// Whether `sample` has one colour for each pixel.
pub open spec fn single_coloured<F: Fn(Texel) -> Rgb>(sample: F) -> bool {
    forall|pixel: Texel, first: Rgb, second: Rgb|
        call_ensures(sample, (pixel,), first) && call_ensures(sample, (pixel,), second) ==> first
            == second
}

/// The cubemap is reproducible: where `sample` has one colour for each
/// pixel, two cubemaps of the same size are the same, byte for byte.
pub proof fn lemma_skybox_reproducible<F: Fn(Texel) -> Rgb>(
    first: Seq<u8>,
    second: Seq<u8>,
    width: int,
    height: int,
    sample: F,
)
    requires
        width >= 1,
        height >= 1,
        single_coloured(sample),
        is_skybox_data(first, width, height, sample),
        is_skybox_data(second, width, height, sample),
    ensures
        first == second,
{
    assert forall|place: int| 0 <= place < first.len() implies first[place] == second[place] by {
        let pixel = place / 4;
        let entry = lemma_grid_index_onto(height, width, pixel);
        let (face, y, x) = entry;
        assert(pixel_sampled(first, width, height, face, x, y, sample));
        assert(pixel_sampled(second, width, height, face, x, y, sample));
        let at = 4 * pixel_index(width, height, face, x, y);
        let one = Rgb { red: first[at], green: first[at + 1], blue: first[at + 2] };
        let other = Rgb { red: second[at], green: second[at + 1], blue: second[at + 2] };
        assert(one == other);
    }
    assert(first =~= second);
}

} // verus!
