use zonalrust::raster::{check_data_length, check_dimensions, parse_metadata, Grid, MetadataFields};

fn sample_grid() -> Grid<f32> {
    Grid::new(3, 2, vec![1.0, 2.0, 3.0, 4.0, 5.0, 6.0]).unwrap()
}

#[test]
fn metadata_is_read_field_by_field() {
    let m = parse_metadata("3 2 0 2 1 -1\n").unwrap();
    assert_eq!(
        m,
        MetadataFields {
            width: 3,
            height: 2,
            x_min: "0".to_string(),
            y_max: "2".to_string(),
            x_res: "1".to_string(),
            y_res: "-1".to_string(),
        }
    );
}

#[test]
fn metadata_errors() {
    assert_eq!(parse_metadata("3 2 0 2 1"), Err("Expected 6 metadata fields, got 5".to_string()));
    assert_eq!(parse_metadata(""), Err("Expected 6 metadata fields, got 0".to_string()));
    assert_eq!(parse_metadata("1 2 3 4 5 6 7 8 9 10 11 12"), Err("Expected 6 metadata fields, got 12".to_string()));
    assert_eq!(parse_metadata("3.0 2 0 2 1 -1"), Err("invalid width".to_string()));
    assert_eq!(parse_metadata("-3 2 0 2 1 -1"), Err("invalid width".to_string()));
    assert_eq!(parse_metadata("+3 x 0 2 1 -1").map(|_| ()), Err("invalid height".to_string()));
    assert_eq!(parse_metadata("3 99999999999999999999 0 2 1 -1"), Err("invalid height".to_string()));
    assert_eq!(parse_metadata("3 2 a 2 1 -1"), Err("invalid x_min".to_string()));
    assert_eq!(parse_metadata("3 2 0 b 1 -1"), Err("invalid y_max".to_string()));
    assert_eq!(parse_metadata("3 2 0 2 c -1"), Err("invalid x_res".to_string()));
    assert_eq!(parse_metadata("3 2 0 2 1 d"), Err("invalid y_res".to_string()));
    assert_eq!(parse_metadata("+3 2 0 2 1 -1").unwrap().width, 3);
}

#[test]
fn dimensions_must_be_positive() {
    assert_eq!(check_dimensions(0, 0), Err("Width not valid".to_string()));
    assert_eq!(check_dimensions(3, 0), Err("Height not valid".to_string()));
    assert_eq!(check_dimensions(3, 2), Ok(()));
}

#[test]
fn data_length_must_fill_the_grid() {
    assert_eq!(check_data_length(3, 2, 24), Ok(6));
    assert_eq!(check_data_length(3, 2, 23), Err("Binary length 23 is not divisible by 4".to_string()));
    assert_eq!(
        check_data_length(3, 2, 20),
        Err("Length of data does not match expected length found in metadata; Expected: 6, Actual 5".to_string())
    );
    assert_eq!(
        check_data_length(usize::MAX, 2, 8),
        Err(format!("Overflow with width and height: {} x 2", usize::MAX))
    );
}

#[test]
fn grid_cells_are_row_major() {
    let g = sample_grid();
    assert_eq!(g.width(), 3);
    assert_eq!(g.height(), 2);
    assert_eq!(*g.get(0, 0), 1.0);
    assert_eq!(*g.get(2, 0), 3.0);
    assert_eq!(*g.get(0, 1), 4.0);
    assert_eq!(*g.get(2, 1), 6.0);
    assert!(Grid::new(3, 2, vec![1.0f32; 5]).is_none());
}

#[test]
fn grid_windows() {
    let g = sample_grid();
    assert_eq!(g.window(1, 2, 0, 1), vec![2.0]);
    assert_eq!(g.window(1, 3, 0, 1), vec![2.0, 3.0]);
    assert_eq!(g.window(2, 3, 0, 1), vec![3.0]);
    assert_eq!(g.window(0, 1, 1, 2), vec![4.0]);
    assert_eq!(g.window(0, 3, 0, 2), vec![1.0, 2.0, 3.0, 4.0, 5.0, 6.0]);
    assert_eq!(g.window(1, 3, 0, 2), vec![2.0, 3.0, 5.0, 6.0]);
    assert_eq!(g.window(1, 1, 0, 2), Vec::<f32>::new());
}

#[test]
fn cell_index_checks_bounds() {
    let g = sample_grid();
    assert_eq!(g.cell_index(2, 1), Ok((2, 1)));
    assert_eq!(g.cell_index(-1, 0), Err("Invalid coords: Negative indices".to_string()));
    assert_eq!(g.cell_index(0, -1), Err("Invalid coords: Negative indices".to_string()));
    assert_eq!(g.cell_index(3, 0), Err("Invalid coords: Out of raster bounds".to_string()));
    assert_eq!(g.cell_index(0, 2), Err("Invalid coords: Out of raster bounds".to_string()));
}

#[test]
fn data_length_is_accepted_exactly_when_it_fills_the_grid() {
    for w in 1..5usize {
        for h in 1..5usize {
            for b in 0..(4 * w * h + 8) {
                assert_eq!(check_data_length(w, h, b).is_ok(), b == 4 * w * h, "{} {} {}", w, h, b);
            }
        }
    }
}

#[test]
fn window_cell_positions() {
    let g = Grid::new(4, 3, (0..12).collect::<Vec<u32>>()).unwrap();
    let (i0, i1, j0, j1) = (1usize, 3usize, 1usize, 3usize);
    let w = g.window(i0, i1, j0, j1);
    assert_eq!(w.len(), (i1 - i0) * (j1 - j0));
    for r in 0..(j1 - j0) {
        for c in 0..(i1 - i0) {
            assert_eq!(w[r * (i1 - i0) + c], *g.get(i0 + c, j0 + r));
        }
    }
}

#[test]
fn window_rows_run_on_in_row_major_order() {
    let g = Grid::new(3, 2, (0..6).collect::<Vec<u32>>()).unwrap();
    assert_eq!(g.window(2, 4, 0, 1), vec![2, 3]);
}
