use voxel_world::coords::{
    get_neighbor, one_d_cords, one_d_cords_safe, three_d_cords, three_d_cords_safe,
};
use voxel_world::face::Face;

const DIMS: (usize, usize, usize) = (4, 5, 6);

#[test]
fn linearize_formula() {
    // index = y * (width * length) + z * width + x
    assert_eq!(one_d_cords([0, 0, 0], DIMS), 0);
    assert_eq!(one_d_cords([1, 0, 0], DIMS), 1);
    assert_eq!(one_d_cords([0, 0, 1], DIMS), 4);
    assert_eq!(one_d_cords([0, 1, 0], DIMS), 24);
    assert_eq!(one_d_cords([3, 4, 5], DIMS), 4 * 24 + 5 * 4 + 3);
}

#[test]
fn round_trip_all_cells() {
    for x in 0..DIMS.0 {
        for y in 0..DIMS.1 {
            for z in 0..DIMS.2 {
                let i = one_d_cords([x, y, z], DIMS);
                assert_eq!(three_d_cords(i, DIMS), [x, y, z]);
            }
        }
    }
    let cubic = (16, 16, 16);
    for i in 0..(16 * 16 * 16) {
        assert_eq!(one_d_cords(three_d_cords(i, cubic), cubic), i);
    }
}

#[test]
fn out_of_range_components_fail() {
    assert_eq!(one_d_cords_safe([4, 0, 0], DIMS), None);
    assert_eq!(one_d_cords_safe([0, 5, 0], DIMS), None);
    assert_eq!(one_d_cords_safe([0, 0, 6], DIMS), None);
    assert_eq!(one_d_cords_safe([3, 4, 5], DIMS), Some(one_d_cords([3, 4, 5], DIMS)));
    assert_eq!(three_d_cords_safe(4 * 5 * 6, DIMS), None);
    assert_eq!(three_d_cords_safe(4 * 5 * 6 - 1, DIMS), Some([3, 4, 5]));
}

#[test]
fn neighbor_none_exactly_at_outer_faces() {
    let dims = (4, 4, 4);
    for x in 0..4usize {
        for y in 0..4usize {
            for z in 0..4usize {
                let i = one_d_cords([x, y, z], dims);
                assert_eq!(get_neighbor(i, Face::Top, dims).is_none(), y == 3);
                assert_eq!(get_neighbor(i, Face::Bottom, dims).is_none(), y == 0);
                assert_eq!(get_neighbor(i, Face::Right, dims).is_none(), x == 3);
                assert_eq!(get_neighbor(i, Face::Left, dims).is_none(), x == 0);
                assert_eq!(get_neighbor(i, Face::Back, dims).is_none(), z == 3);
                assert_eq!(get_neighbor(i, Face::Forward, dims).is_none(), z == 0);
            }
        }
    }
}

#[test]
fn neighbor_values_are_adjacent_cells() {
    let dims = (4, 4, 4);
    let i = one_d_cords([1, 2, 3], dims);
    assert_eq!(get_neighbor(i, Face::Top, dims), Some(one_d_cords([1, 3, 3], dims)));
    assert_eq!(get_neighbor(i, Face::Bottom, dims), Some(one_d_cords([1, 1, 3], dims)));
    assert_eq!(get_neighbor(i, Face::Right, dims), Some(one_d_cords([2, 2, 3], dims)));
    assert_eq!(get_neighbor(i, Face::Left, dims), Some(one_d_cords([0, 2, 3], dims)));
    assert_eq!(get_neighbor(i, Face::Back, dims), None);
    assert_eq!(get_neighbor(i, Face::Forward, dims), Some(one_d_cords([1, 2, 2], dims)));
}

#[test]
fn face_opposites() {
    assert_eq!(Face::Top.opposite(), Face::Bottom);
    assert_eq!(Face::Bottom.opposite(), Face::Top);
    assert_eq!(Face::Right.opposite(), Face::Left);
    assert_eq!(Face::Left.opposite(), Face::Right);
    assert_eq!(Face::Back.opposite(), Face::Forward);
    assert_eq!(Face::Forward.opposite(), Face::Back);
    for i in 0..6 {
        let f = Face::from_index(i);
        assert_eq!(f.index(), i);
        assert_eq!(f.opposite().opposite(), f);
    }
}
