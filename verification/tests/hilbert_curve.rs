use hilbert_anim::hilbert::coords_to_rank;
use hilbert_anim::hilbert::rank_to_coords;
use hilbert_anim::hilbert::side_length;

#[test]
fn order_one_base_curve() {
    assert_eq!(coords_to_rank(0, 0, 1), 0);
    assert_eq!(coords_to_rank(0, 1, 1), 1);
    assert_eq!(coords_to_rank(1, 1, 1), 2);
    assert_eq!(coords_to_rank(1, 0, 1), 3);
    assert_eq!(rank_to_coords(0, 1), (0, 0));
    assert_eq!(rank_to_coords(1, 1), (0, 1));
    assert_eq!(rank_to_coords(2, 1), (1, 1));
    assert_eq!(rank_to_coords(3, 1), (1, 0));
}

#[test]
fn side_lengths_are_powers_of_two() {
    assert_eq!(side_length(0), 1);
    assert_eq!(side_length(1), 2);
    assert_eq!(side_length(8), 256);
    assert_eq!(side_length(16), 65536);
    assert_eq!(side_length(31), 0x8000_0000);
}

#[test]
fn round_trip_from_coords() {
    for order in 0u8..=5 {
        let side = 1u32 << order;
        for y in 0..side {
            for x in 0..side {
                let rank = coords_to_rank(x, y, order);
                assert_eq!(rank_to_coords(rank, order), (x, y));
            }
        }
    }
}

#[test]
fn round_trip_from_rank() {
    for order in 0u8..=5 {
        let cells = 1u64 << (2 * order);
        for rank in 0..cells {
            let (x, y) = rank_to_coords(rank, order);
            let side = 1u32 << order;
            assert!(x < side && y < side);
            assert_eq!(coords_to_rank(x, y, order), rank);
        }
    }
}

#[test]
fn ranks_cover_grid_without_collision() {
    for order in 0u8..=5 {
        let side = 1u32 << order;
        let cells = (side as u64) * (side as u64);
        let mut ranks = Vec::new();
        for y in 0..side {
            for x in 0..side {
                ranks.push(coords_to_rank(x, y, order));
            }
        }
        ranks.sort();
        let expected: Vec<u64> = (0..cells).collect();
        assert_eq!(ranks, expected);
    }
}

#[test]
fn agrees_with_reference_forward() {
    for order in 1u8..=6 {
        let side = 1u32 << order;
        for y in 0..side {
            for x in 0..side {
                let reference: u64 = fast_hilbert::xy2h(x, y, order);
                assert_eq!(coords_to_rank(x, y, order), reference);
            }
        }
    }
}

#[test]
fn agrees_with_reference_inverse() {
    for order in 1u8..=5 {
        let cells = 1u64 << (2 * order);
        for rank in 0..cells {
            let (rx, ry): (u32, u32) = fast_hilbert::h2xy(rank, order);
            assert_eq!(rank_to_coords(rank, order), (rx, ry));
        }
    }
}
