use rascii_art::trim::{trim_bounds, Crop};

fn bordered(content: usize, border: usize) -> Vec<bool> {
    let mut v = vec![false; border];
    v.extend(vec![true; content]);
    v.extend(vec![false; border]);
    v
}

#[test]
fn trim_bounds_cut_a_blank_border() {
    let rows = bordered(20, 10);
    let cols = bordered(20, 10);
    assert_eq!(
        trim_bounds(&rows, &cols),
        Some(Crop { left: 10, top: 10, width: 20, height: 20 })
    );
}

#[test]
fn trim_bounds_keep_a_borderless_image() {
    let rows = bordered(20, 0);
    let cols = bordered(20, 0);
    assert_eq!(
        trim_bounds(&rows, &cols),
        Some(Crop { left: 0, top: 0, width: 20, height: 20 })
    );
}

#[test]
fn trim_bounds_leave_a_solid_image_alone() {
    assert_eq!(trim_bounds(&vec![false; 20], &vec![false; 20]), None);
    assert_eq!(trim_bounds(&vec![true; 3], &vec![false; 4]), None);
    assert_eq!(trim_bounds(&vec![false; 3], &vec![true; 4]), None);
}

#[test]
fn trim_bounds_of_an_empty_image() {
    assert_eq!(trim_bounds(&Vec::new(), &vec![true]), None);
    assert_eq!(trim_bounds(&vec![true], &Vec::new()), None);
}

#[test]
fn trim_bounds_keep_blank_lines_between_content() {
    let rows = vec![false, true, false, false, true, false];
    let cols = vec![true, false, false, true];
    assert_eq!(
        trim_bounds(&rows, &cols),
        Some(Crop { left: 0, top: 1, width: 4, height: 4 })
    );
}
