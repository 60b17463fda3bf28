use hyperlight_unikraft::snapshot::{sparsify_report, zero_pages, zero_ranges, PAGE};

fn image(pages: &[u8], tail: usize) -> Vec<u8> {
    let mut out = Vec::new();
    for p in pages {
        let mut page = vec![0u8; PAGE];
        page[PAGE - 1] = *p;
        out.extend_from_slice(&page);
    }
    out.resize(out.len() + tail, 0);
    out
}

#[test]
fn zero_pages_behind_the_header() {
    // The header is zero as well, and so is the rest of a page at the end.
    let img = image(&[0, 0, 1, 0, 0, 7, 0], 100);
    assert_eq!(zero_pages(&img), [PAGE, 3 * PAGE, 4 * PAGE, 6 * PAGE]);
    assert_eq!(
        zero_ranges(&img),
        [(PAGE, 2 * PAGE), (3 * PAGE, 5 * PAGE), (6 * PAGE, 7 * PAGE)]
    );
}

#[test]
fn short_images_have_no_holes() {
    assert!(zero_pages(&[]).is_empty());
    assert!(zero_ranges(&[0; 100]).is_empty());
    assert!(zero_pages(&image(&[0], 4095)).is_empty());
    assert_eq!(zero_pages(&image(&[0, 0], 0)), [PAGE]);
    assert!(zero_ranges(&image(&[0, 1, 2], 0)).is_empty());
}

#[test]
fn punching_changes_nothing() {
    let img = image(&[9, 0, 3, 0], 1);
    let mut punched = img.clone();
    for o in zero_pages(&img) {
        punched[o..o + PAGE].fill(0);
    }
    assert_eq!(punched, img);
}

#[test]
fn reports() {
    assert_eq!(sparsify_report(10, 0), None);
    assert_eq!(
        sparsify_report(2_621_440_000, 512_000).unwrap(),
        "  sparsified: 500 MiB on disk (punched 512000 zero pages)"
    );
    assert_eq!(
        sparsify_report(8192, 1).unwrap(),
        "  sparsified: 0 MiB on disk (punched 1 zero pages)"
    );
}
