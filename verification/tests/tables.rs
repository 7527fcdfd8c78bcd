use bitchess::binary_mask::{
    empty_magic_tables, generate_main_hashtables, get_bishop_moves_masks,
    get_bishop_moves_masks_collision, get_king_moves_masks, get_knight_moves_masks,
    get_pawn_offsets, get_pawn_push_masks, get_pawn_takes_masks, get_rook_moves_masks,
    get_rook_moves_masks_collision, search_magical_numbers,
};
use bitchess::magic::{find_magic, sparse_candidate, try_magic};

fn squares(list: &[u32]) -> u64 {
    let mut b = 0u64;
    for s in list {
        b |= 1u64 << s;
    }
    b
}

#[test]
fn knight_masks_corner_and_centre() {
    let masks = get_knight_moves_masks();
    assert_eq!(masks[0], squares(&[10, 17]));
    assert_eq!(masks[27], squares(&[10, 12, 17, 21, 33, 37, 42, 44]));
    assert_eq!(masks[63], squares(&[46, 53]));
    for m in masks.iter() {
        assert!(m.count_ones() >= 2 && m.count_ones() <= 8);
    }
}

#[test]
fn king_masks_corner_edge_and_centre() {
    let masks = get_king_moves_masks();
    assert_eq!(masks[0], squares(&[1, 8, 9]));
    assert_eq!(masks[60], squares(&[51, 52, 53, 59, 61]));
    assert_eq!(masks[27], squares(&[18, 19, 20, 26, 28, 34, 35, 36]));
}

#[test]
fn rook_relevance_masks() {
    let masks = get_rook_moves_masks();
    assert_eq!(masks[0], 0x0001_0101_0101_017e);
    assert_eq!(masks[27], squares(&[25, 26, 28, 29, 30, 11, 19, 35, 43, 51]));
    for m in masks.iter() {
        assert!(m.count_ones() >= 10 && m.count_ones() <= 12);
    }
}

#[test]
fn bishop_relevance_masks() {
    let masks = get_bishop_moves_masks();
    assert_eq!(masks[0], 0x0040_2010_0804_0200);
    assert_eq!(masks[27], squares(&[18, 9, 20, 13, 34, 41, 36, 45, 54]));
    for m in masks.iter() {
        assert!(m.count_ones() >= 5 && m.count_ones() <= 9);
    }
}

#[test]
fn rook_attack_stops_at_first_blocker() {
    let blockers = squares(&[3, 24]);
    assert_eq!(get_rook_moves_masks_collision(0, &blockers), squares(&[1, 2, 3, 8, 16, 24]));
    assert_eq!(
        get_rook_moves_masks_collision(0, &0),
        squares(&[1, 2, 3, 4, 5, 6, 7, 8, 16, 24, 32, 40, 48, 56])
    );
}

#[test]
fn bishop_attack_includes_first_blocker() {
    let blockers = squares(&[18, 45]);
    assert_eq!(get_bishop_moves_masks_collision(0, &blockers), squares(&[9, 18]));
    assert_eq!(
        get_bishop_moves_masks_collision(27, &blockers),
        squares(&[18, 20, 13, 6, 34, 41, 48, 36, 45])
    );
}

#[test]
fn rook_on_empty_board_attacks_fourteen_squares() {
    for sq in 0..64usize {
        let own = 1u64 << sq;
        assert_eq!(get_rook_moves_masks_collision(sq, &own).count_ones(), 14);
    }
}

#[test]
fn pawn_tables_white() {
    let takes = get_pawn_takes_masks(true);
    let pushes = get_pawn_push_masks(true);
    let offsets = get_pawn_offsets(true);
    assert_eq!(takes[52], squares(&[43, 45]));
    assert_eq!(takes[48], squares(&[41]));
    assert_eq!(takes[55], squares(&[46]));
    assert_eq!(takes[3], 0);
    assert_eq!(pushes[52], [squares(&[44, 36]), 0, squares(&[44]), 0]);
    assert_eq!(pushes[44], [squares(&[36]), 0, squares(&[36]), 0]);
    assert_eq!(pushes[3], [0, 0, 0, 0]);
    assert_eq!(offsets[52], [44, 36]);
    assert_eq!(offsets[44], [36, 36]);
    assert_eq!(offsets[3], [3, 3]);
}

#[test]
fn pawn_tables_black() {
    let takes = get_pawn_takes_masks(false);
    let pushes = get_pawn_push_masks(false);
    let offsets = get_pawn_offsets(false);
    assert_eq!(takes[12], squares(&[19, 21]));
    assert_eq!(takes[8], squares(&[17]));
    assert_eq!(takes[60], 0);
    assert_eq!(pushes[12], [squares(&[20, 28]), 0, squares(&[20]), 0]);
    assert_eq!(pushes[20], [squares(&[28]), 0, squares(&[28]), 0]);
    assert_eq!(pushes[60], [0, 0, 0, 0]);
    assert_eq!(offsets[12], [20, 28]);
    assert_eq!(offsets[20], [28, 28]);
    assert_eq!(offsets[60], [60, 60]);
}

#[test]
fn zero_is_no_magic_number() {
    let mut table = vec![None; 65536];
    let mask = get_rook_moves_masks()[0];
    assert!(!try_magic(false, 0, mask, 0, &mut table));
}

#[test]
fn found_magic_fills_the_table() {
    let mut table = vec![Some(7u64); 65536];
    let mask = get_bishop_moves_masks()[27];
    let magic = find_magic(true, 27, mask, 1_000_000, &mut table).expect("a magic number");
    let mut again = vec![None; 65536];
    assert!(try_magic(true, 27, mask, magic, &mut again));
    assert_eq!(table, again);
    let blockers = (1u64 << 18) | (1u64 << 45);
    let slot = (blockers.wrapping_mul(magic) >> 48) as usize;
    assert_eq!(table[slot], Some(get_bishop_moves_masks_collision(27, &blockers)));
    let filled = table.iter().filter(|e| e.is_some()).count();
    assert!(filled >= 1 && filled <= 512);
}

#[test]
fn no_attempts_no_magic() {
    let mut table = vec![None; 65536];
    let mask = get_rook_moves_masks()[5];
    assert_eq!(find_magic(false, 5, mask, 0, &mut table), None);
    let mut tables = empty_magic_tables();
    let err = search_magical_numbers(true, 0, &mut tables).err().expect("an error");
    assert!(err.diagonal);
    assert_eq!(err.square, 0);
    let err = search_magical_numbers(false, 0, &mut tables).err().expect("an error");
    assert!(!err.diagonal);
}

#[test]
fn empty_tables_have_the_right_shape() {
    let tables = empty_magic_tables();
    assert_eq!(tables.len(), 64);
    assert!(tables.iter().all(|t| t.len() == 65536 && t.iter().all(|e| e.is_none())));
}

#[test]
fn magic_lookup_agrees_with_ray_walk() {
    let ma = generate_main_hashtables().ok().expect("tables");
    let mut state: u64 = 0x9e37_79b9_7f4a_7c15;
    for sq in 0..64usize {
        for round in 0..64 {
            state = state
                .wrapping_mul(6364136223846793005)
                .wrapping_add(1442695040888963407);
            let mut occ = state;
            if round % 2 == 0 {
                state = state
                    .wrapping_mul(6364136223846793005)
                    .wrapping_add(1442695040888963407);
                occ &= state;
            }
            if round == 0 {
                occ = 0;
            }
            if round == 1 {
                occ = u64::MAX;
            }
            assert_eq!(ma.rook_moves(sq, occ), get_rook_moves_masks_collision(sq, &occ));
            assert_eq!(ma.bishop_moves(sq, occ), get_bishop_moves_masks_collision(sq, &occ));
        }
    }
}

#[test]
fn generated_tables_hold_the_masks() {
    let ma = generate_main_hashtables().ok().expect("tables");
    assert_eq!(ma.knight_move_masks, get_knight_moves_masks());
    assert_eq!(ma.king_move_masks, get_king_moves_masks());
    let rook = get_rook_moves_masks();
    let bishop = get_bishop_moves_masks();
    for sq in 0..64 {
        assert_eq!(ma.rook_moves_masks_magical_numbers[sq].mask, rook[sq]);
        assert_eq!(ma.bishop_moves_masks_magical_numbers[sq].mask, bishop[sq]);
    }
    assert_eq!(ma.pawn_mask_takes_hashmaps[1], get_pawn_takes_masks(true));
    assert_eq!(ma.pawn_mask_takes_hashmaps[0], get_pawn_takes_masks(false));
    assert_eq!(ma.pawn_mask_blockers_hashmaps[1], get_pawn_push_masks(true));
    assert_eq!(ma.pawn_offsets[0], get_pawn_offsets(false));
    assert_eq!(ma.rook_mask_blockers_hashmaps.len(), 64);
    assert_eq!(ma.bishop_mask_blockers_hashmaps[63].len(), 65536);
}

#[test]
fn candidate_is_the_and_of_three_draws() {
    assert_eq!(sparse_candidate(0b1110, 0b0111, 0b1101), 0b0100);
    assert_eq!(sparse_candidate(u64::MAX, u64::MAX, 5), 5);
    assert_eq!(sparse_candidate(0, u64::MAX, u64::MAX), 0);
}

#[test]
fn slots_that_nothing_hashes_to_are_empty() {
    let ma = generate_main_hashtables().ok().expect("tables");
    for sq in [0usize, 7, 27, 36, 56, 63] {
        for diagonal in [false, true] {
            let (entry, table) = if diagonal {
                (ma.bishop_moves_masks_magical_numbers[sq], &ma.bishop_mask_blockers_hashmaps[sq])
            } else {
                (ma.rook_moves_masks_magical_numbers[sq], &ma.rook_mask_blockers_hashmaps[sq])
            };
            let mut expected: Vec<Option<u64>> = vec![None; 65536];
            let mut blockers = 0u64;
            loop {
                let slot = (blockers.wrapping_mul(entry.magic_number) >> 48) as usize;
                let attack = if diagonal {
                    get_bishop_moves_masks_collision(sq, &blockers)
                } else {
                    get_rook_moves_masks_collision(sq, &blockers)
                };
                assert!(expected[slot].is_none() || expected[slot] == Some(attack));
                expected[slot] = Some(attack);
                if blockers == entry.mask {
                    break;
                }
                blockers = ((blockers | !entry.mask) + 1) & entry.mask;
            }
            assert_eq!(table, &expected);
        }
    }
}

#[test]
fn a_search_leaves_nothing_of_what_the_table_held() {
    let mut tables = vec![vec![Some(u64::MAX); 65536]; 64];
    let entries = search_magical_numbers(false, 1_000_000, &mut tables).ok().expect("magic numbers");
    for sq in 0..64 {
        let filled = tables[sq].iter().filter(|e| e.is_some()).count();
        assert!(filled >= 1 && filled <= 1 << entries[sq].mask.count_ones());
        assert!(tables[sq].iter().all(|e| *e != Some(u64::MAX)));
    }
}
