//! Where the boxes go on a frame: the face as it was found, and the eyes
//! moved from the face's own coordinates into the frame's.

use vstd::prelude::*;

verus! {

/// A rectangle in pixel coordinates: its top left corner and its size.
#[derive(Debug, Clone, Copy, PartialEq, Eq, Structural)]
pub struct Rect {
    pub x: i32,
    pub y: i32,
    pub width: i32,
    pub height: i32,
}

/// The corner of `eye`, moved by the corner of `face`, is a pixel coordinate.
pub open spec fn fits_frame(face: Rect, eye: Rect) -> bool {
    &&& i32::MIN <= face.x + eye.x <= i32::MAX
    &&& i32::MIN <= face.y + eye.y <= i32::MAX
}

/// An eye found inside a face, in the coordinates of the frame: moved by the
/// face's corner, with its own size.
pub open spec fn eye_in_frame(face: Rect, eye: Rect) -> Rect {
    Rect {
        x: (face.x + eye.x) as i32,
        y: (face.y + eye.y) as i32,
        width: eye.width,
        height: eye.height,
    }
}

/// The boxes drawn for one face: the face itself, and after it the eyes, in
/// the order found, if exactly two were found. One eye, or three, is a false
/// detection and is not drawn.
pub open spec fn drawn_boxes(face: Rect, eyes: Seq<Rect>) -> Seq<Rect> {
    if eyes.len() == 2 {
        seq![face, eye_in_frame(face, eyes[0]), eye_in_frame(face, eyes[1])]
    } else {
        seq![face]
    }
}

/// The boxes to draw on the frame for `face` and the eyes found in it.
pub fn frame_boxes(face: &Rect, eyes: &Vec<Rect>) -> (boxes: Vec<Rect>)
    requires
        eyes@.len() == 2 ==> fits_frame(*face, eyes@[0]) && fits_frame(*face, eyes@[1]),
    ensures
        boxes@ == drawn_boxes(*face, eyes@),
{
    let mut boxes: Vec<Rect> = Vec::new();
    boxes.push(*face);
    if eyes.len() == 2 {
        let mut i: usize = 0;
        while i < 2
            invariant
                i <= 2,
                eyes@.len() == 2,
                fits_frame(*face, eyes@[0]),
                fits_frame(*face, eyes@[1]),
                boxes@.len() == i + 1,
                boxes@[0] == *face,
                forall|j: int| 0 <= j < i ==> boxes@[j + 1] == eye_in_frame(*face, #[trigger] eyes@[j]),
            decreases 2 - i,
        {
            let eye = eyes[i];
            boxes.push(
                Rect { x: face.x + eye.x, y: face.y + eye.y, width: eye.width, height: eye.height },
            );
            i = i + 1;
        }
        assert(boxes@ =~= drawn_boxes(*face, eyes@));
    } else {
        assert(boxes@ =~= drawn_boxes(*face, eyes@));
    }
    boxes
}

} // verus!
