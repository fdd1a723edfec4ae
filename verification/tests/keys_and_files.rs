use icp_practice::file_handler::{frame_number, group_number, load_pcd_files, parse_decimal, FileEntry};
use icp_practice::hypotheses::hypotheses;
use icp_practice::morton::{morton3d, part1by2};
use icp_practice::operate_pcd::{
    array2_to_points, pcd_header, points_to_array2, rgb_to_float, PointXYZ, Points,
};
use icp_practice::order::{less_bits, rank_of_bits};
use icp_practice::report::{
    best_candidate, best_stat_result, candidate_path, comparison_cloud,
    comparison_cloud_with_centering, file_path, pcd_file_path, transform_rows, stat_result,
};
use icp_practice::rows::{all_positions, select};
use icp_practice::sort::stable_order;

fn naive_key(x: u32, y: u32, z: u32) -> u64 {
    let mut key: u64 = 0;
    for i in 0..21u64 {
        key |= ((x as u64 >> i) & 1) << (3 * i);
        key |= ((y as u64 >> i) & 1) << (3 * i + 1);
        key |= ((z as u64 >> i) & 1) << (3 * i + 2);
    }
    key
}

#[test]
fn morton_keys_of_unit_cells() {
    assert_eq!(morton3d(0, 0, 0), 0);
    assert_eq!(morton3d(1, 0, 0), 1);
    assert_eq!(morton3d(0, 1, 0), 2);
    assert_eq!(morton3d(0, 0, 1), 4);
    assert_eq!(morton3d(2, 0, 0), 8);
    assert_eq!(morton3d(3, 5, 7), 0b110_101_111);
}

#[test]
fn morton_keys_use_all_bits() {
    assert_eq!(morton3d(0x1f_ffff, 0x1f_ffff, 0x1f_ffff), 0x7fff_ffff_ffff_ffff);
    assert_eq!(morton3d(0x10_0000, 0, 0), 1 << 60);
    assert_eq!(part1by2(0x1f_ffff), 0x1249_2492_4924_9249);
}

#[test]
fn morton_keys_drop_high_bits() {
    assert_eq!(morton3d(0x20_0000, 0, 0), 0);
    assert_eq!(morton3d(u32::MAX, 0, 0), morton3d(0x1f_ffff, 0, 0));
}

#[test]
fn morton_keys_match_bit_by_bit_interleaving() {
    let mut state: u64 = 12345;
    for _ in 0..2000 {
        state = state.wrapping_mul(6364136223846793005).wrapping_add(1442695040888963407);
        let x = (state >> 33) as u32;
        let y = (state >> 21) as u32;
        let z = (state >> 7) as u32;
        assert_eq!(morton3d(x, y, z), naive_key(x, y, z));
    }
}

#[test]
fn morton_keys_tell_cells_apart() {
    let mut seen = std::collections::HashSet::new();
    for x in 0..12 {
        for y in 0..12 {
            for z in 0..12 {
                assert!(seen.insert(morton3d(x, y, z)));
            }
        }
    }
}

#[test]
fn bit_patterns_order_as_their_numbers() {
    let numbers = [
        f64::NEG_INFINITY, -1.5e300, -2.0, -1.0, -1e-320, -0.0, 0.0, 1e-320, 0.5, 1.0, 2.0, f64::MAX,
        f64::INFINITY, f64::NAN, -f64::NAN,
    ];
    for a in numbers {
        for b in numbers {
            assert_eq!(less_bits(a.to_bits(), b.to_bits()), a < b, "{} {}", a, b);
        }
    }
}

#[test]
fn ranks_of_zeros_and_of_no_number() {
    assert_eq!(rank_of_bits((0.0f64).to_bits()), Some(0));
    assert_eq!(rank_of_bits((-0.0f64).to_bits()), Some(0));
    assert_eq!(rank_of_bits((1.0f64).to_bits()), Some(0x3ff0_0000_0000_0000));
    assert_eq!(rank_of_bits((-1.0f64).to_bits()), Some(-0x3ff0_0000_0000_0000));
    assert_eq!(rank_of_bits(f64::NAN.to_bits()), None);
}

#[test]
fn stable_order_keeps_equal_keys_in_place() {
    assert_eq!(stable_order(&vec![3, 1, 3, 2, 1, -7]), vec![5, 1, 4, 3, 0, 2]);
    assert_eq!(stable_order(&vec![]), Vec::<usize>::new());
    assert_eq!(stable_order(&vec![9]), vec![0]);
}

#[test]
fn stable_order_agrees_with_the_standard_sort() {
    let mut state: u64 = 7;
    let mut keys: Vec<i64> = Vec::new();
    for _ in 0..5000 {
        state = state.wrapping_mul(6364136223846793005).wrapping_add(1);
        keys.push((state >> 40) as i64 % 100 - 50);
    }
    let mut expected: Vec<usize> = (0..keys.len()).collect();
    expected.sort_by_key(|i| keys[*i]);
    assert_eq!(stable_order(&keys), expected);
}

#[test]
fn rows_are_picked_by_position() {
    assert_eq!(select(&vec!['a', 'b', 'c'], &vec![2, 0, 2]), vec!['c', 'a', 'c']);
    assert_eq!(all_positions(4), vec![0, 1, 2, 3]);
}

#[test]
fn picking_twice_is_picking_once() {
    let rows = vec![10, 20, 30, 40];
    let first = vec![3, 1, 0];
    let second = vec![2, 2, 0];
    let twice = select(&select(&rows, &first), &second);
    assert_eq!(twice, select(&rows, &select(&first, &second)));
    assert_eq!(twice, vec![10, 10, 40]);
}

#[test]
fn colours_pack_into_three_bytes() {
    assert_eq!(rgb_to_float(0x12, 0x34, 0x56), 0x123456);
    assert_eq!(rgb_to_float(255, 255, 255), 0xff_ffff);
    assert_eq!(rgb_to_float(0, 255, 0), 0x00ff00);
    assert!(f32::from_bits(rgb_to_float(255, 255, 255)).is_finite());
}

#[test]
fn a_file_declares_one_column() {
    let header = pcd_header(17);
    assert_eq!((header.width, header.height), (1, 17));
}

fn cloud(points: &[(f32, f32, f32)]) -> Points<f32> {
    Points::new(points.iter().map(|p| PointXYZ { x: p.0, y: p.1, z: p.2 }).collect())
}

#[test]
fn coloured_points_keep_their_places() {
    let colored = cloud(&[(1.0, 2.0, 3.0), (4.0, 5.0, 6.0)]).transform_colored_points((1, 2, 3));
    assert_eq!(colored.len(), 2);
    assert_eq!((colored[1].x, colored[1].y, colored[1].z, colored[1].rgb), (4.0, 5.0, 6.0, 0x010203));
}

#[test]
fn rows_and_points_round_trip() {
    let points = cloud(&[(1.0, 2.0, 3.0), (-4.0, 0.5, 6.1)]);
    let rows = points_to_array2(&points, |x: f32| x as f64);
    assert_eq!(rows, vec![[1.0, 2.0, 3.0], [-4.0, 0.5, 6.1f32 as f64]]);
    let back = array2_to_points(&rows, |x: f64| x as f32);
    let seen: Vec<(f32, f32, f32)> = back.points.iter().map(|p| (p.x, p.y, p.z)).collect();
    assert_eq!(seen, vec![(1.0, 2.0, 3.0), (-4.0, 0.5, 6.1)]);
}

#[test]
fn rows_come_back_rounded() {
    let rows = vec![[0.1, 0.5, 1e300], [-0.1, 2.0, 0.0]];
    let points = array2_to_points(&rows, |x: f64| x as f32);
    let back = points_to_array2(&points, |x: f32| x as f64);
    assert_eq!(back.len(), 2);
    for i in 0..2 {
        for j in 0..3 {
            assert_eq!(back[i][j], (rows[i][j] as f32) as f64);
        }
    }
    assert_eq!((back[0][1], back[1][1]), (0.5, 2.0));
}

#[test]
fn hypotheses_come_with_their_labels() {
    let labels: Vec<&str> = hypotheses().iter().map(|h| h.label).collect();
    assert_eq!(
        labels,
        vec![
            "LR_Flip_Reverse-Y",
            "UD_Flip_Reverse-Z",
            "Front-Back_Flip_Reverse-X",
            "Rot_180_Z",
            "Rot_180_Y",
            "Rot_180_X",
            "Rot_90_X",
            "Rot_-90_X",
            "Rot_90_Y",
            "Rot_-90_Y",
            "Rot_90_Z",
            "Rot_-90_Z",
        ]
    );
}

type M = [[i32; 4]; 4];

fn product(a: &M, b: &M) -> M {
    let mut r = [[0; 4]; 4];
    for i in 0..4 {
        for j in 0..4 {
            for k in 0..4 {
                r[i][j] += a[i][k] * b[k][j];
            }
        }
    }
    r
}

#[test]
fn hypotheses_have_the_matrices_expected() {
    let h = hypotheses();
    assert_eq!(h[0].matrix, [[1, 0, 0, 0], [0, -1, 0, 0], [0, 0, 1, 0], [0, 0, 0, 1]]);
    assert_eq!(h[1].matrix, [[1, 0, 0, 0], [0, 1, 0, 0], [0, 0, -1, 0], [0, 0, 0, 1]]);
    assert_eq!(h[2].matrix, [[-1, 0, 0, 0], [0, 1, 0, 0], [0, 0, 1, 0], [0, 0, 0, 1]]);
    assert_eq!(h[3].matrix, [[-1, 0, 0, 0], [0, -1, 0, 0], [0, 0, 1, 0], [0, 0, 0, 1]]);
    assert_eq!(h[4].matrix, [[-1, 0, 0, 0], [0, 1, 0, 0], [0, 0, -1, 0], [0, 0, 0, 1]]);
    assert_eq!(h[5].matrix, [[1, 0, 0, 0], [0, -1, 0, 0], [0, 0, -1, 0], [0, 0, 0, 1]]);
    assert_eq!(h[6].matrix, [[1, 0, 0, 0], [0, 0, -1, 0], [0, 1, 0, 0], [0, 0, 0, 1]]);
    assert_eq!(h[7].matrix, [[1, 0, 0, 0], [0, 0, 1, 0], [0, -1, 0, 0], [0, 0, 0, 1]]);
    assert_eq!(h[8].matrix, [[0, 0, 1, 0], [0, 1, 0, 0], [-1, 0, 0, 0], [0, 0, 0, 1]]);
    assert_eq!(h[9].matrix, [[0, 0, -1, 0], [0, 1, 0, 0], [1, 0, 0, 0], [0, 0, 0, 1]]);
    assert_eq!(h[10].matrix, [[0, -1, 0, 0], [1, 0, 0, 0], [0, 0, 1, 0], [0, 0, 0, 1]]);
    assert_eq!(h[11].matrix, [[0, 1, 0, 0], [-1, 0, 0, 0], [0, 0, 1, 0], [0, 0, 0, 1]]);
}

#[test]
fn turns_and_flips_compose() {
    let identity: M = [[1, 0, 0, 0], [0, 1, 0, 0], [0, 0, 1, 0], [0, 0, 0, 1]];
    let h = hypotheses();
    for i in 0..6 {
        assert_eq!(product(&h[i].matrix, &h[i].matrix), identity);
    }
    for i in [6, 8, 10] {
        assert_eq!(product(&h[i].matrix, &h[i + 1].matrix), identity);
    }
    assert_eq!(product(&h[6].matrix, &h[6].matrix), h[5].matrix);
    assert_eq!(product(&h[8].matrix, &h[8].matrix), h[4].matrix);
    assert_eq!(product(&h[10].matrix, &h[10].matrix), h[3].matrix);
    assert_eq!(product(&h[0].matrix, &h[1].matrix), h[5].matrix);
    for i in 0..12 {
        let m = &h[i].matrix;
        let mut transposed = *m;
        for r in 0..4 {
            for c in 0..4 {
                transposed[r][c] = m[c][r];
            }
        }
        assert_eq!(product(m, &transposed), identity);
    }
}

#[test]
fn frame_numbers_are_read_from_names() {
    assert_eq!(frame_number("voxelized-025_frame_12.pcd"), Some(12));
    assert_eq!(frame_number("voxelized-025_frame_0007.pcd"), Some(7));
    assert_eq!(frame_number("run3-voxelized-025_frame_4294967295.pcd"), Some(u32::MAX));
    assert_eq!(
        frame_number("voxelized-025_frame_1.pcdvoxelized-025_frame_2.pcd"),
        Some(2)
    );
}

#[test]
fn other_names_have_no_frame_number() {
    assert_eq!(frame_number("voxelized-025_frame_4294967296.pcd"), None);
    assert_eq!(frame_number("voxelized-025_frame_.pcd"), None);
    assert_eq!(frame_number("voxelized-025_frame_12.pcd.bak"), None);
    assert_eq!(frame_number("voxelized-025_frame_12.pcd\n"), None);
    assert_eq!(frame_number("voxelized-025_frame_12xpcd"), None);
    assert_eq!(frame_number("voxelized-025_frame_-3.pcd"), None);
    assert_eq!(frame_number("voxelized-025_frame_+3.pcd"), None);
    assert_eq!(frame_number("Voxelized-025_frame_3.pcd"), None);
    assert_eq!(frame_number("voxelized-025_frame_\u{0663}.pcd"), None);
    assert_eq!(frame_number("voxelized-025_frame_1\u{0663}.pcd"), None);
    assert_eq!(frame_number(""), None);
}

#[test]
fn groups_are_read_as_numbers() {
    assert_eq!(group_number(&None), None);
    assert_eq!(group_number(&Some("042".to_string())), Some(42));
    assert_eq!(group_number(&Some("4x".to_string())), None);
}

#[test]
fn decimals_are_parsed() {
    assert_eq!(parse_decimal("0"), Some(0));
    assert_eq!(parse_decimal("4294967295"), Some(u32::MAX));
    assert_eq!(parse_decimal("4294967296"), None);
    assert_eq!(parse_decimal("99999999999999"), None);
    assert_eq!(parse_decimal("000000000000000001"), Some(1));
    assert_eq!(parse_decimal(""), None);
    assert_eq!(parse_decimal(" 1"), None);
}

fn entry(is_file: bool, name: Option<&str>) -> FileEntry {
    FileEntry { is_file, name: name.map(|n| n.to_string()) }
}

#[test]
fn frame_files_are_listed_in_order() {
    let entries = vec![
        entry(true, Some("voxelized-025_frame_10.pcd")),
        entry(true, Some("notes.txt")),
        entry(false, Some("voxelized-025_frame_1.pcd")),
        entry(true, Some("voxelized-025_frame_9.pcd")),
        entry(true, None),
        entry(true, Some("voxelized-025_frame_010.pcd")),
        entry(true, Some("voxelized-025_frame_99999999999.pcd")),
        entry(true, Some("voxelized-025_frame_2.pcd")),
    ];
    assert_eq!(load_pcd_files(&entries), vec![7, 3, 0, 5]);
    assert_eq!(load_pcd_files(&vec![]), Vec::<usize>::new());
}

fn bits(errors: &[f64]) -> Vec<u64> {
    errors.iter().map(|e| e.to_bits()).collect()
}

#[test]
fn best_candidate_has_the_smallest_error() {
    assert_eq!(best_candidate(&bits(&[0.5, 0.25, 0.75, 0.25])), Some(1));
    assert_eq!(best_candidate(&bits(&[f64::NAN, 3.0])), Some(1));
    assert_eq!(best_candidate(&bits(&[f64::NAN, f64::MAX, f64::INFINITY])), None);
    assert_eq!(best_candidate(&bits(&[])), None);
    assert_eq!(best_candidate(&bits(&[0.0, -0.0])), Some(0));
}

#[test]
fn paths_are_put_together() {
    assert_eq!(candidate_path("data/output", "Rot_90_X"), "data/output/icp-aligned-by-Rot_90_X.pcd");
    assert_eq!(pcd_file_path("out", "a"), "out/a.pcd");
    assert_eq!(file_path("out", "a.json"), "out/a.json");
    assert_ne!(candidate_path("out", "A"), candidate_path("out", "B"));
}

const COUNTING: [[i32; 4]; 4] =
    [[0, 1, 2, 3], [4, 5, 6, 7], [8, 9, 10, 11], [12, 13, 14, 15]];

#[test]
fn transforms_are_listed_row_by_row() {
    let rows = transform_rows(&COUNTING);
    assert_eq!(
        rows,
        vec![vec![0, 1, 2, 3], vec![4, 5, 6, 7], vec![8, 9, 10, 11], vec![12, 13, 14, 15]]
    );
}

#[test]
fn candidates_are_recorded() {
    let stat = stat_result("out", "Original", 25, &COUNTING);
    assert_eq!(stat.label, "Original");
    assert_eq!(stat.save_pcd_path, "out/icp-aligned-by-Original.pcd");
    assert_eq!(stat.rmse, 25);
    assert_eq!(stat.transform.len(), 4);
    assert_eq!(stat.transform[2], vec![8, 9, 10, 11]);
}

#[test]
fn the_best_candidate_is_recorded() {
    let stat = best_stat_result("out", "Rot_90_X", 5, &COUNTING);
    assert_eq!(stat.label, "Rot_90_X");
    assert_eq!(stat.save_pcd_path, "out/icp-aligned_best-result.pcd");
    assert_eq!((stat.rmse, &stat.transform[3]), (5, &vec![12, 13, 14, 15]));
}

#[test]
fn comparison_clouds_hold_all_parts_in_their_colours() {
    let target = cloud(&[(1.0, 0.0, 0.0)]);
    let aligned = cloud(&[(2.0, 0.0, 0.0), (3.0, 0.0, 0.0)]);
    let source = cloud(&[(4.0, 0.0, 0.0)]);
    let centered = cloud(&[(5.0, 0.0, 0.0)]);
    let plain = comparison_cloud(&target, &aligned, &source);
    let with = comparison_cloud_with_centering(&target, &aligned, &source, &centered);
    let seen: Vec<(f32, u32)> = with.iter().map(|p| (p.x, p.rgb)).collect();
    assert_eq!(
        seen,
        vec![
            (1.0, 0x0000ff),
            (2.0, 0x00ff00),
            (3.0, 0x00ff00),
            (4.0, 0xff0000),
            (5.0, 0xffff00),
        ]
    );
    assert_eq!(plain.len(), 4);
    assert_eq!(plain[3].rgb, 0xff0000);
}
