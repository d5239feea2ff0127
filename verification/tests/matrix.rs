use esp_ward::matrix::{CoordError, PanelChain};

#[test]
fn create_starts_blank() {
    let chain = PanelChain::create(3);
    assert_eq!(chain.panel_count(), 3);
    for x in 0..24 {
        for y in 0..8 {
            assert_eq!(chain.pixel(x, y), Ok(false));
        }
    }
    for panel in 0..3 {
        for row in 0..8 {
            assert_eq!(chain.panel_row(panel, row), Some(0));
        }
    }
}

#[test]
fn set_pixel_lights_exactly_one_led() {
    // for several chain lengths, setting any single pixel lights that pixel
    // and nothing else, on any panel
    for &panels in &[1usize, 4, 7] {
        let width = 8 * panels;
        for x in 0..width {
            for y in 0..8 {
                let mut chain = PanelChain::create(panels);
                assert_eq!(chain.set_pixel(x, y), Ok((x / 8, x % 8, y)));
                for x2 in 0..width {
                    for y2 in 0..8 {
                        let expect = x2 == x && y2 == y;
                        assert_eq!(chain.pixel(x2, y2), Ok(expect));
                    }
                }
            }
        }
    }
}

#[test]
fn set_pixel_readback_matches_local_coordinates() {
    let mut chain = PanelChain::create(4);
    assert_eq!(chain.set_pixel(17, 5), Ok((2, 1, 5)));
    // the bit shows up in panel 2, row 5, column 1, and nowhere else
    assert_eq!(chain.panel_row(2, 5), Some(1 << 1));
    for panel in 0..4 {
        for row in 0..8 {
            if !(panel == 2 && row == 5) {
                assert_eq!(chain.panel_row(panel, row), Some(0));
            }
        }
    }
}

#[test]
fn reset_clears_everything() {
    let mut chain = PanelChain::create(5);
    for x in 0..40 {
        chain.set_pixel(x, x % 8).unwrap();
    }
    chain.reset();
    for x in 0..40 {
        for y in 0..8 {
            assert_eq!(chain.pixel(x, y), Ok(false));
        }
    }
    // resetting again changes nothing
    chain.reset();
    for x in 0..40 {
        for y in 0..8 {
            assert_eq!(chain.pixel(x, y), Ok(false));
        }
    }
}

#[test]
fn out_of_range_coordinates_are_rejected() {
    for panels in 1usize..=7 {
        let mut chain = PanelChain::create(panels);
        assert_eq!(chain.set_pixel(8 * panels, 0), Err(CoordError::XOutOfRange));
        assert_eq!(chain.set_pixel(0, 8), Err(CoordError::YOutOfRange));
        // the failed calls left every LED dark
        for x in 0..8 * panels {
            for y in 0..8 {
                assert_eq!(chain.pixel(x, y), Ok(false));
            }
        }
        // the row check wins when both coordinates are bad
        assert_eq!(chain.set_pixel(8 * panels, 8), Err(CoordError::YOutOfRange));
    }
}

#[test]
fn division_boundary_at_panel_edges() {
    // on a two-panel, 16x8 grid: column 9 lands on panel 1 at local x 1,
    // column 7 stays on panel 0 at local x 7
    let mut chain = PanelChain::create(2);
    assert_eq!(chain.set_pixel(9, 3), Ok((1, 1, 3)));
    assert_eq!(chain.set_pixel(7, 3), Ok((0, 7, 3)));
    assert_eq!(chain.panel_row(1, 3), Some(1 << 1));
    assert_eq!(chain.panel_row(0, 3), Some(1 << 7));
}

#[test]
fn map_coordinate_is_pure_addressing() {
    assert_eq!(PanelChain::map_coordinate(2, 9, 3), Ok((1, 1, 3)));
    assert_eq!(PanelChain::map_coordinate(2, 7, 3), Ok((0, 7, 3)));
    assert_eq!(PanelChain::map_coordinate(2, 16, 0), Err(CoordError::XOutOfRange));
    assert_eq!(PanelChain::map_coordinate(2, 0, 8), Err(CoordError::YOutOfRange));
    assert_eq!(PanelChain::map_coordinate(1, 0, 0), Ok((0, 0, 0)));
}

#[test]
fn panel_row_rejects_missing_panels_and_rows() {
    let chain = PanelChain::create(2);
    assert_eq!(chain.panel_row(2, 0), None);
    assert_eq!(chain.panel_row(0, 8), None);
}
