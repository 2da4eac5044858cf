use blorus::piece::{
    catalog_shape, empty_shape, flip, rotate, shape_from_masks, transpose, FlipDir, RotateDir, Shape,
};

fn all_catalog_shapes() -> Vec<Shape> {
    (0..21).map(catalog_shape).collect()
}

#[test]
fn tranpose_ok() {
    let chair = catalog_shape(19);
    let chair_t = shape_from_masks([0b00000, 0b00110, 0b01100, 0b00100, 0b00000]);

    assert_eq!(transpose(chair), chair_t);

    let line5 = catalog_shape(9);
    let line5_t = shape_from_masks([0b00000, 0b00000, 0b11111, 0b00000, 0b00000]);

    assert_eq!(transpose(line5), line5_t);
}

#[test]
fn flip_ok() {
    let chair = catalog_shape(19);
    let chair_fv = shape_from_masks([0b00000, 0b00100, 0b01110, 0b00010, 0b00000]);
    let chair_fh = shape_from_masks([0b00000, 0b01000, 0b01110, 0b00100, 0b00000]);

    assert_eq!(flip(chair, FlipDir::Vertical), chair_fv);
    assert_eq!(flip(chair, FlipDir::Horizontal), chair_fh);
}

#[test]
fn rotate_right_four_times_is_identity() {
    for s in all_catalog_shapes() {
        let mut t = s;
        for _ in 0..4 {
            t = rotate(t, RotateDir::Right);
        }
        assert_eq!(t, s);
    }
}

#[test]
fn rotate_left_four_times_is_identity() {
    for s in all_catalog_shapes() {
        let mut t = s;
        for _ in 0..4 {
            t = rotate(t, RotateDir::Left);
        }
        assert_eq!(t, s);
    }
}

#[test]
fn flip_twice_is_identity() {
    for s in all_catalog_shapes() {
        assert_eq!(flip(flip(s, FlipDir::Vertical), FlipDir::Vertical), s);
        assert_eq!(flip(flip(s, FlipDir::Horizontal), FlipDir::Horizontal), s);
    }
}

#[test]
fn rotate_matches_flip_and_transpose() {
    let chair = catalog_shape(19);
    let chair_r = shape_from_masks([0b00000, 0b01100, 0b00110, 0b00100, 0b00000]);
    let chair_l = shape_from_masks([0b00000, 0b00100, 0b01100, 0b00110, 0b00000]);
    assert_eq!(rotate(chair, RotateDir::Right), chair_r);
    assert_eq!(transpose(flip(chair, FlipDir::Vertical)), chair_r);
    assert_eq!(rotate(chair, RotateDir::Left), chair_l);
    assert_eq!(flip(transpose(chair), FlipDir::Vertical), chair_l);

    let line5 = catalog_shape(9);
    let line5_turned = shape_from_masks([0b00000, 0b00000, 0b11111, 0b00000, 0b00000]);
    assert_eq!(rotate(line5, RotateDir::Right), line5_turned);
    assert_eq!(transpose(flip(line5, FlipDir::Vertical)), line5_turned);
    assert_eq!(rotate(line5, RotateDir::Left), line5_turned);
    assert_eq!(flip(transpose(line5), FlipDir::Vertical), line5_turned);
}

#[test]
fn rotations_of_every_piece_agree_with_flip_and_transpose() {
    for s in all_catalog_shapes() {
        assert_eq!(rotate(s, RotateDir::Right), transpose(flip(s, FlipDir::Vertical)));
        assert_eq!(rotate(s, RotateDir::Left), flip(transpose(s), FlipDir::Vertical));
    }
}

#[test]
fn empty_shape_stays_empty() {
    let e = empty_shape();
    assert_eq!(e, shape_from_masks([0; 5]));
    assert_eq!(flip(e, FlipDir::Vertical), e);
    assert_eq!(flip(e, FlipDir::Horizontal), e);
    assert_eq!(transpose(e), e);
    assert_eq!(rotate(e, RotateDir::Right), e);
}

#[test]
fn dot_is_fixed_by_every_transform() {
    let dot = catalog_shape(0);
    assert_eq!(dot, shape_from_masks([0, 0, 0b00100, 0, 0]));
    assert_eq!(flip(dot, FlipDir::Vertical), dot);
    assert_eq!(flip(dot, FlipDir::Horizontal), dot);
    assert_eq!(rotate(dot, RotateDir::Right), dot);
    assert_eq!(rotate(dot, RotateDir::Left), dot);
}

#[test]
fn masks_set_cells() {
    let corner = shape_from_masks([0b00001, 0, 0, 0, 0]);
    assert_ne!(corner, empty_shape());
    assert_eq!(flip(corner, FlipDir::Horizontal), shape_from_masks([0b10000, 0, 0, 0, 0]));
    assert_eq!(flip(corner, FlipDir::Vertical), shape_from_masks([0, 0, 0, 0, 0b00001]));
    assert_eq!(rotate(corner, RotateDir::Right), shape_from_masks([0b10000, 0, 0, 0, 0]));
    assert_eq!(rotate(corner, RotateDir::Left), shape_from_masks([0, 0, 0, 0, 0b00001]));
}

#[test]
fn catalog_shapes_are_distinct() {
    let shapes = all_catalog_shapes();
    for i in 0..shapes.len() {
        for j in (i + 1)..shapes.len() {
            assert_ne!(shapes[i], shapes[j]);
        }
    }
    assert_eq!(catalog_shape(10), shape_from_masks([0b00100, 0b00100, 0b00100, 0b01100, 0]));
    assert_eq!(catalog_shape(14), shape_from_masks([0, 0, 0b01110, 0b00110, 0]));
}

