use ordered_pipeline::overlay::{frame_boxes, Rect};

fn rect(x: i32, y: i32, width: i32, height: i32) -> Rect {
    Rect { x, y, width, height }
}

#[test]
fn two_eyes_are_drawn_in_frame_coordinates() {
    let face = rect(100, 50, 80, 90);
    let eyes = vec![rect(10, 20, 15, 12), rect(50, 22, 16, 11)];
    assert_eq!(
        frame_boxes(&face, &eyes),
        vec![face, rect(110, 70, 15, 12), rect(150, 72, 16, 11)]
    );
}

#[test]
fn any_other_number_of_eyes_draws_the_face_alone() {
    let face = rect(3, 4, 5, 6);
    assert_eq!(frame_boxes(&face, &Vec::new()), vec![face]);
    assert_eq!(frame_boxes(&face, &vec![rect(1, 1, 1, 1)]), vec![face]);
    let three = vec![rect(1, 1, 1, 1), rect(2, 2, 2, 2), rect(3, 3, 3, 3)];
    assert_eq!(frame_boxes(&face, &three), vec![face]);
}

#[test]
fn eyes_of_a_face_at_the_edge_keep_their_size() {
    let face = rect(-5, 0, 20, 20);
    let eyes = vec![rect(2, 3, 4, 5), rect(0, 0, i32::MAX, i32::MAX)];
    assert_eq!(
        frame_boxes(&face, &eyes),
        vec![face, rect(-3, 3, 4, 5), rect(-5, 0, i32::MAX, i32::MAX)]
    );
}
